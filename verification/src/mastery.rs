//! The current user's champion mastery: which LCU paths to try, in which
//! order, and what each reply means.

use vstd::prelude::*;
use crate::client::{LcuReply, body_present, body_is_present};
use crate::number::{decimal_i64, decimal_text};
use crate::text::{chars_of, joined, replace_all, replace_chars, string_of, trim_chars, trimmed};

verus! {

/// The path of the current summoner.
pub const CURRENT_SUMMONER_PATH: &'static str = "/lol-summoner/v1/current-summoner";

/// The path of the mastery updates after a game.
pub const END_OF_GAME_MASTERY_PATH: &'static str = "/lol-end-of-game/v1/champion-mastery-updates";

/// One mastery entry as the LCU lists it.
pub struct LcuChampionMasteryEntry {
    pub champion_id: i64,
    pub champion_level: i64,
    pub champion_points: i64,
}

/// One champion of the user's mastery.
#[derive(Debug, Clone, Copy, PartialEq, Eq, Structural)]
pub struct ChampionMasteryEntry {
    pub champion_id: i64,
    pub champion_level: i64,
    pub champion_points: i64,
}

/// The fields of the current summoner that mastery needs: the summoner id
/// (0 when the LCU gave none) and the PUUID.
pub struct CurrentSummoner {
    pub summoner_id: i64,
    pub puuid: Option<String>,
}

/// The texts of a list of strings.
pub open spec fn texts(v: Seq<String>) -> Seq<Seq<char>> {
    v.map_values(|s: String| s@)
}

/// A summoner id given as an unsigned JSON number, read as `u64 as i64`
/// reads it (two's complement).
pub open spec fn wrapped_summoner_id(v: u64) -> int {
    if v <= i64::MAX {
        v as int
    } else {
        v - 0x1_0000_0000_0000_0000
    }
}

/// A summoner id given as an unsigned JSON number.
pub fn summoner_id_from_unsigned(v: u64) -> (id: i64)
    ensures
        id == wrapped_summoner_id(v),
{
    if v <= i64::MAX as u64 {
        v as i64
    } else {
        let above: u64 = v - 0x8000_0000_0000_0000;
        (above as i64) + i64::MIN
    }
}

/// Whether the current-summoner reply can be read: status 200 and a body
/// that is neither empty nor `null`.
pub open spec fn summoner_reply_usable(status: u16, body: Seq<char>) -> bool {
    status == 200 && body_present(body)
}

/// Whether the current-summoner reply can be read.
pub fn summoner_reply_is_usable(status: u16, body: &str) -> (r: bool)
    ensures
        r == summoner_reply_usable(status, body@),
{
    status == 200 && body_is_present(body)
}

/// The ids under which mastery is looked up, in order: the summoner id in
/// decimal unless it is 0, the trimmed PUUID unless it is missing or blank,
/// then `current-summoner`.
pub open spec fn mastery_ids(summoner_id: i64, puuid: Option<Seq<char>>) -> Seq<Seq<char>> {
    let by_id = if summoner_id != 0 {
        seq![decimal_text(summoner_id as int)]
    } else {
        Seq::<Seq<char>>::empty()
    };
    let by_puuid = match puuid {
        Some(p) => if trimmed(p).len() > 0 {
            seq![trimmed(p)]
        } else {
            Seq::<Seq<char>>::empty()
        },
        None => Seq::<Seq<char>>::empty(),
    };
    by_id + by_puuid + seq!["current-summoner"@]
}

/// The PUUID text of the summoner, if any.
pub open spec fn puuid_text(s: CurrentSummoner) -> Option<Seq<char>> {
    match s.puuid {
        Some(p) => Some(p@),
        None => None,
    }
}

/// The ids under which mastery is looked up.
pub fn mastery_candidate_ids(summoner: &CurrentSummoner) -> (ids: Vec<String>)
    ensures
        texts(ids@) == mastery_ids(summoner.summoner_id, puuid_text(*summoner)),
{
    let mut ids: Vec<String> = Vec::new();
    if summoner.summoner_id != 0 {
        ids.push(decimal_i64(summoner.summoner_id));
    }
    match &summoner.puuid {
        Some(p) => {
            let cs = chars_of(p.as_str());
            let t = trim_chars(&cs);
            if t.len() > 0 {
                ids.push(string_of(t.as_slice()));
            }
        },
        None => {},
    }
    ids.push("current-summoner".to_owned());
    assert(texts(ids@) =~= mastery_ids(summoner.summoner_id, puuid_text(*summoner)));
    ids
}

/// The LCU paths that may hold the mastery of the user `{}`.
pub open spec fn mastery_templates() -> Seq<Seq<char>> {
    seq![
        "/lol-collections/v1/inventories/{}/champion-mastery"@,
        "/lol-collections/v1/inventories/{}/champion-mastery/top"@,
        "/lol-champions/v1/inventories/{}/champion-mastery"@,
        "/lol-champions/v1/inventories/{}/champion-mastery/top"@,
    ]
}

fn mastery_templates_exec() -> (t: Vec<String>)
    ensures
        texts(t@) == mastery_templates(),
{
    let mut t: Vec<String> = Vec::new();
    t.push("/lol-collections/v1/inventories/{}/champion-mastery".to_owned());
    t.push("/lol-collections/v1/inventories/{}/champion-mastery/top".to_owned());
    t.push("/lol-champions/v1/inventories/{}/champion-mastery".to_owned());
    t.push("/lol-champions/v1/inventories/{}/champion-mastery/top".to_owned());
    assert(texts(t@) =~= mastery_templates());
    t
}

/// The paths of one id: each template with `{}` replaced by the id.
pub open spec fn paths_for_id(id: Seq<char>) -> Seq<Seq<char>> {
    mastery_templates().map_values(|t: Seq<char>| replace_all(t, "{}"@, id))
}

/// The paths to try, in order: for each id, each template.
pub open spec fn mastery_paths(ids: Seq<Seq<char>>) -> Seq<Seq<char>>
    decreases ids.len(),
{
    if ids.len() == 0 {
        seq![]
    } else {
        mastery_paths(ids.drop_last()) + paths_for_id(ids.last())
    }
}

/// The paths to try for the ids, in order.
pub fn mastery_candidate_paths(ids: &Vec<String>) -> (paths: Vec<String>)
    ensures
        texts(paths@) == mastery_paths(texts(ids@)),
{
    let templates = mastery_templates_exec();
    let hole = chars_of("{}");
    let mut paths: Vec<String> = Vec::new();
    let mut i: usize = 0;
    while i < ids.len()
        invariant
            texts(templates@) == mastery_templates(),
            hole@ == "{}"@,
            i <= ids@.len(),
            texts(paths@) == mastery_paths(texts(ids@.take(i as int))),
        decreases ids@.len() - i,
    {
        let id = chars_of(ids[i].as_str());
        let ghost before = texts(paths@);
        let mut j: usize = 0;
        while j < templates.len()
            invariant
                texts(templates@) == mastery_templates(),
                hole@ == "{}"@,
                id@ == ids@[i as int]@,
                j <= templates@.len(),
                texts(paths@) == before + paths_for_id(ids@[i as int]@).take(j as int),
            decreases templates@.len() - j,
        {
            let t = chars_of(templates[j].as_str());
            assert(hole@.len() == 2) by {
                reveal_strlit("{}");
            }
            let p = replace_chars(&t, &hole, &id);
            proof {
                assert(texts(templates@).len() == templates@.len());
                assert(texts(templates@)[j as int] == templates@[j as int]@);
                assert(templates@[j as int]@ == mastery_templates()[j as int]);
                assert(paths_for_id(ids@[i as int]@)[j as int] == replace_all(mastery_templates()[j as int], "{}"@, ids@[i as int]@));
            }
            let ghost before_push = paths@;
            paths.push(string_of(p.as_slice()));
            assert(paths@ == before_push.push(paths@[paths@.len() - 1]));
            assert(texts(paths@) =~= texts(before_push).push(p@));
            assert(texts(paths@) =~= before + paths_for_id(ids@[i as int]@).take(j + 1));
            j = j + 1;
        }
        assert(paths_for_id(ids@[i as int]@).take(4) =~= paths_for_id(ids@[i as int]@));
        assert(texts(ids@.take(i + 1)).drop_last() =~= texts(ids@.take(i as int)));
        assert(texts(ids@.take(i + 1)).last() == ids@[i as int]@);
        i = i + 1;
    }
    assert(ids@.take(ids@.len() as int) =~= ids@);
    paths
}

/// Law: the lookup ids are, in this order, the summoner id in decimal (only
/// when it is not 0), the PUUID without surrounding white space (only when
/// that is not empty), and `current-summoner`.
pub proof fn law_mastery_ids_order(summoner_id: i64, puuid: Option<Seq<char>>)
    ensures
        ({
            let ids = mastery_ids(summoner_id, puuid);
            let n_id: int = if summoner_id != 0 { 1 } else { 0 };
            let n_puuid: int = if puuid is Some && trimmed(puuid->0).len() > 0 { 1 } else { 0 };
            &&& ids.len() == n_id + n_puuid + 1
            &&& ids[ids.len() - 1] == "current-summoner"@
            &&& summoner_id != 0 ==> ids[0] == decimal_text(summoner_id as int)
            &&& n_puuid == 1 ==> ids[n_id] == trimmed(puuid->0)
        }),
{
}

/// Law: each id gives four paths, one per template in template order, the
/// template's `{}` replaced by the id; the ids follow one another in order.
pub proof fn law_mastery_paths_per_id(ids: Seq<Seq<char>>)
    ensures
        mastery_paths(ids).len() == 4 * ids.len(),
        forall|a: int, b: int| 0 <= a < ids.len() && 0 <= b < 4 ==> #[trigger] mastery_paths(ids)[4 * a + b]
            == replace_all(mastery_templates()[b], "{}"@, ids[a]),
    decreases ids.len(),
{
    if ids.len() > 0 {
        let prev = ids.drop_last();
        law_mastery_paths_per_id(prev);
        let n = prev.len();
        assert forall|a: int, b: int| 0 <= a < ids.len() && 0 <= b < 4 implies #[trigger] mastery_paths(ids)[4 * a + b]
            == replace_all(mastery_templates()[b], "{}"@, ids[a]) by {
            if a < n {
                assert(mastery_paths(ids)[4 * a + b] == mastery_paths(prev)[4 * a + b]);
                assert(prev[a] == ids[a]);
            } else {
                assert(mastery_paths(ids)[4 * a + b] == paths_for_id(ids.last())[b]);
            }
        }
    }
}

/// The entries of an LCU mastery list, field for field.
pub open spec fn mastery_of(raw: Seq<LcuChampionMasteryEntry>) -> Seq<ChampionMasteryEntry> {
    raw.map_values(|e: LcuChampionMasteryEntry| ChampionMasteryEntry {
        champion_id: e.champion_id,
        champion_level: e.champion_level,
        champion_points: e.champion_points,
    })
}

/// Whether `r` copies the LCU entries `raw`, entry for entry and field for field.
pub open spec fn copies_entries(r: Seq<ChampionMasteryEntry>, raw: Seq<LcuChampionMasteryEntry>) -> bool {
    &&& r.len() == raw.len()
    &&& forall|i: int| 0 <= i < raw.len() ==> {
        &&& #[trigger] r[i].champion_id == raw[i].champion_id
        &&& r[i].champion_level == raw[i].champion_level
        &&& r[i].champion_points == raw[i].champion_points
    }
}

/// Law: the mastery of an LCU list has one entry per LCU entry, in order,
/// with the same champion, level and points.
pub proof fn law_mastery_copies_each_entry(raw: Seq<LcuChampionMasteryEntry>)
    ensures
        mastery_of(raw).len() == raw.len(),
        forall|i: int| 0 <= i < raw.len() ==> {
            &&& #[trigger] mastery_of(raw)[i].champion_id == raw[i].champion_id
            &&& mastery_of(raw)[i].champion_level == raw[i].champion_level
            &&& mastery_of(raw)[i].champion_points == raw[i].champion_points
        },
{
}

/// The entries of an LCU mastery list.
pub fn mastery_entries(raw: &Vec<LcuChampionMasteryEntry>) -> (r: Vec<ChampionMasteryEntry>)
    ensures
        r@ == mastery_of(raw@),
        r@.len() == raw@.len(),
        forall|i: int| 0 <= i < raw@.len() ==> {
            &&& #[trigger] r@[i].champion_id == raw@[i].champion_id
            &&& r@[i].champion_level == raw@[i].champion_level
            &&& r@[i].champion_points == raw@[i].champion_points
        },
{
    proof {
        law_mastery_copies_each_entry(raw@);
    }
    let mut r: Vec<ChampionMasteryEntry> = Vec::new();
    let mut i: usize = 0;
    while i < raw.len()
        invariant
            i <= raw@.len(),
            r@ == mastery_of(raw@.take(i as int)),
        decreases raw@.len() - i,
    {
        let e = &raw[i];
        r.push(ChampionMasteryEntry {
            champion_id: e.champion_id,
            champion_level: e.champion_level,
            champion_points: e.champion_points,
        });
        assert(mastery_of(raw@.take(i + 1)) =~= mastery_of(raw@.take(i as int)).push(r@[i as int]));
        i = i + 1;
    }
    assert(raw@.take(raw@.len() as int) =~= raw@);
    r
}

/// What the mastery lookup asks of its caller after a reply.
#[derive(Debug, Clone, Copy, PartialEq, Eq, Structural)]
pub enum MasteryAction {
    /// Request the next path.
    Continue,
    /// Decode the body as the inventory's mastery list and return it; a body
    /// that does not decode is an error.
    DecodeInventory,
    /// Decode the body as the end-of-game mastery updates and return them; a
    /// body that does not decode means no mastery.
    DecodeEndOfGame,
    /// There is no mastery to report.
    NoMastery,
}

/// The lookup of the user's mastery: the inventory paths in order, then the
/// end-of-game updates.
pub struct MasteryLookup {
    paths: Vec<String>,
    position: usize,
    done: bool,
}

impl MasteryLookup {
    /// The inventory paths, in the order they are tried.
    pub closed spec fn candidate_paths(&self) -> Seq<Seq<char>> {
        texts(self.paths@)
    }

    /// How many inventory paths were answered without result; equal to the
    /// number of paths once the end-of-game updates are asked.
    pub closed spec fn position(&self) -> nat {
        self.position as nat
    }

    /// Whether the lookup reached its answer.
    pub closed spec fn finished(&self) -> bool {
        self.done
    }

    /// Whether the lookup's position is within its paths.
    pub closed spec fn wf(&self) -> bool {
        self.position <= self.paths@.len()
    }

    /// Starts the lookup for a summoner.
    pub fn new(summoner: &CurrentSummoner) -> (l: MasteryLookup)
        ensures
            l.wf(),
            !l.finished(),
            l.position() == 0,
            l.candidate_paths() == mastery_paths(mastery_ids(summoner.summoner_id, puuid_text(*summoner))),
    {
        let ids = mastery_candidate_ids(summoner);
        let paths = mastery_candidate_paths(&ids);
        MasteryLookup { paths, position: 0, done: false }
    }

    /// The path to request now: the next inventory path, or the end-of-game
    /// updates once every inventory path was tried.
    pub fn current_path(&self) -> (p: String)
        requires
            self.wf(),
        ensures
            p@ == if self.position() < self.candidate_paths().len() {
                self.candidate_paths()[self.position() as int]
            } else {
                END_OF_GAME_MASTERY_PATH@
            },
    {
        if self.position < self.paths.len() {
            proof {
                assert(texts(self.paths@)[self.position as int] == self.paths@[self.position as int]@);
            }
            self.paths[self.position].clone()
        } else {
            END_OF_GAME_MASTERY_PATH.to_owned()
        }
    }

    /// Takes the reply to `current_path`. An inventory path that answers 200
    /// ends the lookup (with its body, or with no mastery when the body is
    /// empty or `null`); any other answer moves on to the next path. The
    /// end-of-game updates end the lookup either way.
    pub fn on_reply(&mut self, reply: &LcuReply) -> (a: MasteryAction)
        requires
            old(self).wf(),
            !old(self).finished(),
        ensures
            final(self).wf(),
            final(self).candidate_paths() == old(self).candidate_paths(),
            old(self).position() < old(self).candidate_paths().len() ==> a == (match *reply {
                Ok((status, body)) => if status != 200 {
                    MasteryAction::Continue
                } else if body_present(body@) {
                    MasteryAction::DecodeInventory
                } else {
                    MasteryAction::NoMastery
                },
                Err(_) => MasteryAction::Continue,
            }),
            old(self).position() == old(self).candidate_paths().len() ==> a == (match *reply {
                Ok((status, body)) => if status == 200 && body_present(body@) {
                    MasteryAction::DecodeEndOfGame
                } else {
                    MasteryAction::NoMastery
                },
                Err(_) => MasteryAction::NoMastery,
            }),
            a == MasteryAction::Continue ==> final(self).position() == old(self).position() + 1
                && !final(self).finished(),
            a != MasteryAction::Continue ==> final(self).finished() && final(self).position() == old(
                self,
            ).position(),
    {
        let inventory = self.position < self.paths.len();
        let answer = match reply {
            Ok((status, body)) => {
                if inventory {
                    if *status != 200 {
                        MasteryAction::Continue
                    } else if body_is_present(body.as_str()) {
                        MasteryAction::DecodeInventory
                    } else {
                        MasteryAction::NoMastery
                    }
                } else if *status == 200 && body_is_present(body.as_str()) {
                    MasteryAction::DecodeEndOfGame
                } else {
                    MasteryAction::NoMastery
                }
            },
            Err(_) => if inventory {
                MasteryAction::Continue
            } else {
                MasteryAction::NoMastery
            },
        };
        if answer == MasteryAction::Continue {
            self.position = self.position + 1;
        } else {
            self.done = true;
        }
        answer
    }
}

/// The mastery of a decoded inventory list, or the error for a body that
/// did not decode.
pub fn inventory_mastery(decoded: Result<Vec<LcuChampionMasteryEntry>, String>) -> (r: Result<Vec<ChampionMasteryEntry>, String>)
    ensures
        decoded matches Ok(raw) ==> r matches Ok(m) && m@ == mastery_of(raw@),
        decoded matches Ok(raw) ==> r matches Ok(m) && copies_entries(m@, raw@),
        decoded matches Err(e) ==> r matches Err(m) && m@ == "Invalid mastery JSON: "@ + e@,
{
    match decoded {
        Ok(raw) => Ok(mastery_entries(&raw)),
        Err(e) => Err(joined("Invalid mastery JSON: ", e.as_str())),
    }
}

/// The mastery of decoded end-of-game updates; updates that did not decode
/// give none.
pub fn end_of_game_mastery(decoded: Result<Vec<LcuChampionMasteryEntry>, String>) -> (r: Vec<ChampionMasteryEntry>)
    ensures
        decoded matches Ok(raw) ==> r@ == mastery_of(raw@),
        decoded matches Ok(raw) ==> copies_entries(r@, raw@),
        decoded is Err ==> r@.len() == 0,
{
    match decoded {
        Ok(raw) => mastery_entries(&raw),
        Err(_) => Vec::new(),
    }
}

/// The message for a current-summoner body that is not valid JSON.
pub fn invalid_summoner_message(detail: &str) -> (m: String)
    ensures
        m@ == "Invalid current-summoner JSON: "@ + detail@,
{
    joined("Invalid current-summoner JSON: ", detail)
}

} // verus!
