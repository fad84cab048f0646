//! Champion masterdata from Community Dragon's champion summary.

use vstd::prelude::*;
use crate::text::joined;

verus! {

/// The URL of Community Dragon's champion summary.
pub const CHAMPION_SUMMARY_URL: &'static str =
    "https://raw.communitydragon.org/latest/plugins/rcp-be-lol-game-data/global/default/v1/champion-summary.json";

/// One entry of the champion summary as Community Dragon lists it.
pub struct CommunityDragonChampion {
    pub id: i64,
    pub name: String,
    pub roles: Vec<String>,
}

/// A champion the recommender knows: id, name and roles.
#[derive(Debug, Clone)]
pub struct ChampionMasterdata {
    pub id: i64,
    pub name: String,
    pub roles: Vec<String>,
}

/// The champions of the summary with a positive id, in order, each with its
/// own name and roles.
pub open spec fn listed_champions(raw: Seq<CommunityDragonChampion>) -> Seq<ChampionMasterdata>
    decreases raw.len(),
{
    if raw.len() == 0 {
        seq![]
    } else if raw.last().id > 0 {
        listed_champions(raw.drop_last()).push(
            ChampionMasterdata { id: raw.last().id, name: raw.last().name, roles: raw.last().roles },
        )
    } else {
        listed_champions(raw.drop_last())
    }
}

proof fn lemma_map_push<A, B>(s: Seq<A>, x: A, f: spec_fn(A) -> B)
    ensures
        s.push(x).map_values(f) == s.map_values(f).push(f(x)),
{
    assert(s.push(x).map_values(f) =~= s.map_values(f).push(f(x)));
}

/// Law: the masterdata holds every entry of the summary with a positive id,
/// in order, each with its own id, name and roles, and nothing else.
pub proof fn law_masterdata_is_the_positive_entries(raw: Seq<CommunityDragonChampion>)
    ensures
        listed_champions(raw) == raw.filter(|c: CommunityDragonChampion| c.id > 0).map_values(
            |c: CommunityDragonChampion| ChampionMasterdata { id: c.id, name: c.name, roles: c.roles },
        ),
    decreases raw.len(),
{
    let p = |c: CommunityDragonChampion| c.id > 0;
    let f = |c: CommunityDragonChampion| ChampionMasterdata { id: c.id, name: c.name, roles: c.roles };
    reveal(Seq::filter);
    if raw.len() > 0 {
        law_masterdata_is_the_positive_entries(raw.drop_last());
        assert(raw.drop_last().push(raw.last()) =~= raw);
        raw.drop_last().lemma_filter_push(raw.last(), p);
        lemma_map_push(raw.drop_last().filter(p), raw.last(), f);
    } else {
        assert(raw.filter(p) =~= Seq::<CommunityDragonChampion>::empty());
        assert(raw.filter(p).map_values(f) =~= Seq::<ChampionMasterdata>::empty());
    }
}

/// The masterdata of the champion summary: the entries with a positive id.
pub fn champion_masterdata(raw: Vec<CommunityDragonChampion>) -> (r: Vec<ChampionMasterdata>)
    ensures
        r@ == listed_champions(raw@),
        r@ == raw@.filter(|c: CommunityDragonChampion| c.id > 0).map_values(
            |c: CommunityDragonChampion| ChampionMasterdata { id: c.id, name: c.name, roles: c.roles },
        ),
{
    proof {
        law_masterdata_is_the_positive_entries(raw@);
    }
    let mut r: Vec<ChampionMasterdata> = Vec::new();
    let ghost all = raw@;
    for c in it: raw.into_iter()
        invariant
            it.seq() == all,
            r@ == listed_champions(all.take(it.index() as int)),
    {
        let ghost k = it.index();
        assert(all.take(k + 1).drop_last() =~= all.take(k as int));
        assert(all.take(k + 1).last() == all[k as int]);
        if c.id > 0 {
            r.push(ChampionMasterdata { id: c.id, name: c.name, roles: c.roles });
        }
    }
    assert(all.take(all.len() as int) =~= all);
    r
}

/// The message for a champion summary that is not valid JSON.
pub fn invalid_summary_message(detail: &str) -> (m: String)
    ensures
        m@ == "Invalid champion-summary JSON: "@ + detail@,
{
    joined("Invalid champion-summary JSON: ", detail)
}

/// Law: every champion of the masterdata has a positive id and comes from
/// an entry of the summary with the same id, name and roles.
pub proof fn law_masterdata_comes_from_summary(raw: Seq<CommunityDragonChampion>)
    ensures
        forall|i: int| 0 <= i < listed_champions(raw).len() ==> #[trigger] listed_champions(raw)[i].id > 0,
        forall|i: int| 0 <= i < listed_champions(raw).len() ==> exists|k: int|
            0 <= k < raw.len() && raw[k].id == #[trigger] listed_champions(raw)[i].id
                && raw[k].name == listed_champions(raw)[i].name && raw[k].roles == listed_champions(raw)[i].roles,
    decreases raw.len(),
{
    if raw.len() > 0 {
        law_masterdata_comes_from_summary(raw.drop_last());
        let before = listed_champions(raw.drop_last());
        let last = raw.len() - 1;
        assert(raw[last] == raw.last());
        assert forall|i: int| 0 <= i < listed_champions(raw).len() implies #[trigger] listed_champions(raw)[i].id > 0 by {
            if i < before.len() {
                assert(listed_champions(raw)[i] == before[i]);
            }
        }
        assert forall|i: int| 0 <= i < listed_champions(raw).len() implies exists|k: int|
            0 <= k < raw.len() && raw[k].id == #[trigger] listed_champions(raw)[i].id
                && raw[k].name == listed_champions(raw)[i].name && raw[k].roles == listed_champions(raw)[i].roles by {
            if i < before.len() {
                assert(listed_champions(raw)[i] == before[i]);
                let k = choose|k: int| 0 <= k < raw.drop_last().len() && raw.drop_last()[k].id == before[i].id
                    && raw.drop_last()[k].name == before[i].name && raw.drop_last()[k].roles == before[i].roles;
                assert(raw[k] == raw.drop_last()[k]);
            } else {
                assert(listed_champions(raw)[i].id == raw[last].id);
            }
        }
    }
}

} // verus!
