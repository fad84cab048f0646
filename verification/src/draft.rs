//! Champ select: from the LCU session to the draft state the recommender
//! reads (bans, picks, phase, time left).

use vstd::prelude::*;
use crate::number::{decimal_u64, decimal_digits};
use crate::text::{chars_of, joined, same_ignoring_ascii_case, same_ignoring_ascii_case_exec};
use crate::client::{body_present, body_is_present};

verus! {

/// The path of the champ select session.
pub const CHAMP_SELECT_SESSION_PATH: &'static str = "/lol-champ-select/v1/session";

/// The bans that the session lists per team.
pub struct ChampSelectBans {
    pub my_team_bans: Vec<i64>,
    pub their_team_bans: Vec<i64>,
}

/// The phase timer of the session.
pub struct ChampSelectTimer {
    pub phase: Option<String>,
    pub time_left_in_phase: Option<u64>,
}

/// One pick or ban action of a champ select turn (`type` in the LCU JSON).
pub struct ChampSelectAction {
    pub champion_id: i64,
    pub actor_cell_id: i64,
    pub action_type: String,
}

/// One player slot of a team.
pub struct ChampSelectCell {
    pub cell_id: i64,
    pub champion_id: i64,
}

/// The part of `/lol-champ-select/v1/session` that the draft state reads.
pub struct ChampSelectSession {
    pub bans: ChampSelectBans,
    pub timer: ChampSelectTimer,
    pub my_team: Vec<ChampSelectCell>,
    pub their_team: Vec<ChampSelectCell>,
    pub actions: Vec<Vec<ChampSelectAction>>,
    pub local_player_cell_id: Option<i64>,
}

/// The draft as the recommender sees it.
#[derive(Debug, Clone)]
pub struct LiveDraftState {
    pub in_champ_select: bool,
    pub phase: String,
    pub time_left_sec: Option<u64>,
    pub my_team_bans: Vec<i64>,
    pub their_team_bans: Vec<i64>,
    pub my_team_picks: Vec<i64>,
    pub their_team_picks: Vec<i64>,
    pub local_player_cell_id: i64,
}

/// The cell ids of a team, in order, leaving out negative ids.
pub open spec fn team_cell_ids(cells: Seq<ChampSelectCell>) -> Seq<i64>
    decreases cells.len(),
{
    if cells.len() == 0 {
        seq![]
    } else if cells.last().cell_id >= 0 {
        team_cell_ids(cells.drop_last()).push(cells.last().cell_id)
    } else {
        team_cell_ids(cells.drop_last())
    }
}

/// The champions picked by a team, in cell order: the positive champion ids.
pub open spec fn picked_champions(cells: Seq<ChampSelectCell>) -> Seq<i64>
    decreases cells.len(),
{
    if cells.len() == 0 {
        seq![]
    } else if cells.last().champion_id > 0 {
        picked_champions(cells.drop_last()).push(cells.last().champion_id)
    } else {
        picked_champions(cells.drop_last())
    }
}

/// A ban action that names a champion: its type is `ban` in any ASCII case
/// and its champion id is positive.
pub open spec fn is_champion_ban(a: ChampSelectAction) -> bool {
    same_ignoring_ascii_case(a.action_type@, "ban"@) && a.champion_id > 0
}

/// The champions banned in `turn` by actors among `mine`.
pub open spec fn turn_bans_of_mine(turn: Seq<ChampSelectAction>, mine: Seq<i64>) -> Seq<i64>
    decreases turn.len(),
{
    if turn.len() == 0 {
        seq![]
    } else if is_champion_ban(turn.last()) && mine.contains(turn.last().actor_cell_id) {
        turn_bans_of_mine(turn.drop_last(), mine).push(turn.last().champion_id)
    } else {
        turn_bans_of_mine(turn.drop_last(), mine)
    }
}

/// The champions banned in `turn` by actors among `theirs` and not among `mine`.
pub open spec fn turn_bans_of_theirs(turn: Seq<ChampSelectAction>, mine: Seq<i64>, theirs: Seq<i64>) -> Seq<i64>
    decreases turn.len(),
{
    if turn.len() == 0 {
        seq![]
    } else if is_champion_ban(turn.last()) && !mine.contains(turn.last().actor_cell_id)
        && theirs.contains(turn.last().actor_cell_id) {
        turn_bans_of_theirs(turn.drop_last(), mine, theirs).push(turn.last().champion_id)
    } else {
        turn_bans_of_theirs(turn.drop_last(), mine, theirs)
    }
}

/// The bans of my team found in the actions, turn by turn.
pub open spec fn action_bans_of_mine(turns: Seq<Vec<ChampSelectAction>>, mine: Seq<i64>) -> Seq<i64>
    decreases turns.len(),
{
    if turns.len() == 0 {
        seq![]
    } else {
        action_bans_of_mine(turns.drop_last(), mine) + turn_bans_of_mine(turns.last()@, mine)
    }
}

/// The bans of the other team found in the actions, turn by turn.
pub open spec fn action_bans_of_theirs(turns: Seq<Vec<ChampSelectAction>>, mine: Seq<i64>, theirs: Seq<i64>) -> Seq<i64>
    decreases turns.len(),
{
    if turns.len() == 0 {
        seq![]
    } else {
        action_bans_of_theirs(turns.drop_last(), mine, theirs) + turn_bans_of_theirs(turns.last()@, mine, theirs)
    }
}

/// Whether the session lists no bans of its own, so that they are read from
/// the actions.
pub open spec fn bans_from_actions(s: ChampSelectSession) -> bool {
    s.bans.my_team_bans@.len() == 0 && s.bans.their_team_bans@.len() == 0
}

/// My team's bans: the session's list, or those found in the actions when
/// the session lists none.
pub open spec fn my_bans(s: ChampSelectSession) -> Seq<i64> {
    if bans_from_actions(s) {
        action_bans_of_mine(s.actions@, team_cell_ids(s.my_team@))
    } else {
        s.bans.my_team_bans@
    }
}

/// The other team's bans: the session's list, or those found in the actions
/// when the session lists none.
pub open spec fn their_bans(s: ChampSelectSession) -> Seq<i64> {
    if bans_from_actions(s) {
        action_bans_of_theirs(s.actions@, team_cell_ids(s.my_team@), team_cell_ids(s.their_team@))
    } else {
        s.bans.their_team_bans@
    }
}

/// Whether `v` holds `x`.
pub fn contains_id(v: &Vec<i64>, x: i64) -> (r: bool)
    ensures
        r == v@.contains(x),
{
    let mut i: usize = 0;
    while i < v.len()
        invariant
            i <= v@.len(),
            forall|j: int| 0 <= j < i ==> v@[j] != x,
        decreases v@.len() - i,
    {
        if v[i] == x {
            return true;
        }
        i = i + 1;
    }
    false
}

/// The non-negative cell ids of a team.
pub fn team_cells(cells: &Vec<ChampSelectCell>) -> (ids: Vec<i64>)
    ensures
        ids@ == team_cell_ids(cells@),
        forall|x: i64| #[trigger] ids@.contains(x) <==> is_cell_of(cells@, x),
{
    proof {
        law_team_cell_ids_are_the_cells(cells@);
    }
    let mut ids: Vec<i64> = Vec::new();
    let mut i: usize = 0;
    while i < cells.len()
        invariant
            i <= cells@.len(),
            ids@ == team_cell_ids(cells@.take(i as int)),
        decreases cells@.len() - i,
    {
        assert(cells@.take(i + 1).drop_last() =~= cells@.take(i as int));
        if cells[i].cell_id >= 0 {
            ids.push(cells[i].cell_id);
        }
        i = i + 1;
    }
    assert(cells@.take(cells@.len() as int) =~= cells@);
    ids
}

/// The positive champion ids of a team's cells.
pub fn team_picks(cells: &Vec<ChampSelectCell>) -> (picks: Vec<i64>)
    ensures
        picks@ == picked_champions(cells@),
        picks@ == cells@.filter(|c: ChampSelectCell| c.champion_id > 0).map_values(|c: ChampSelectCell| c.champion_id),
{
    proof {
        law_picks_are_the_positive_champions(cells@);
    }
    let mut picks: Vec<i64> = Vec::new();
    let mut i: usize = 0;
    while i < cells.len()
        invariant
            i <= cells@.len(),
            picks@ == picked_champions(cells@.take(i as int)),
        decreases cells@.len() - i,
    {
        assert(cells@.take(i + 1).drop_last() =~= cells@.take(i as int));
        if cells[i].champion_id > 0 {
            picks.push(cells[i].champion_id);
        }
        i = i + 1;
    }
    assert(cells@.take(cells@.len() as int) =~= cells@);
    picks
}

fn is_champion_ban_exec(a: &ChampSelectAction, ban: &Vec<char>) -> (r: bool)
    requires
        ban@ == "ban"@,
    ensures
        r == is_champion_ban(*a),
{
    let kind = chars_of(a.action_type.as_str());
    same_ignoring_ascii_case_exec(&kind, ban) && a.champion_id > 0
}

/// The bans found in the actions, attributed to my team or the other team by
/// the actor's cell.
pub fn bans_in_actions(actions: &Vec<Vec<ChampSelectAction>>, mine: &Vec<i64>, theirs: &Vec<i64>) -> (r: (Vec<i64>, Vec<i64>))
    ensures
        r.0@ == action_bans_of_mine(actions@, mine@),
        r.1@ == action_bans_of_theirs(actions@, mine@, theirs@),
        r.0@ == all_actions(actions@).filter(
            |a: ChampSelectAction|
                same_ignoring_ascii_case(a.action_type@, "ban"@) && a.champion_id > 0 && mine@.contains(
                    a.actor_cell_id,
                ),
        ).map_values(|a: ChampSelectAction| a.champion_id),
        r.1@ == all_actions(actions@).filter(
            |a: ChampSelectAction|
                same_ignoring_ascii_case(a.action_type@, "ban"@) && a.champion_id > 0 && !mine@.contains(
                    a.actor_cell_id,
                ) && theirs@.contains(a.actor_cell_id),
        ).map_values(|a: ChampSelectAction| a.champion_id),
{
    proof {
        law_action_bans_are_the_ban_actions(actions@, mine@, theirs@);
    }
    let ban = chars_of("ban");
    let mut my: Vec<i64> = Vec::new();
    let mut their: Vec<i64> = Vec::new();
    let mut i: usize = 0;
    while i < actions.len()
        invariant
            ban@ == "ban"@,
            i <= actions@.len(),
            my@ == action_bans_of_mine(actions@.take(i as int), mine@),
            their@ == action_bans_of_theirs(actions@.take(i as int), mine@, theirs@),
        decreases actions@.len() - i,
    {
        let turn = &actions[i];
        let ghost my_before = my@;
        let ghost their_before = their@;
        let mut j: usize = 0;
        while j < turn.len()
            invariant
                ban@ == "ban"@,
                j <= turn@.len(),
                my@ == my_before + turn_bans_of_mine(turn@.take(j as int), mine@),
                their@ == their_before + turn_bans_of_theirs(turn@.take(j as int), mine@, theirs@),
            decreases turn@.len() - j,
        {
            let act = &turn[j];
            assert(turn@.take(j + 1).drop_last() =~= turn@.take(j as int));
            assert(turn@.take(j + 1).last() == turn@[j as int]);
            if is_champion_ban_exec(act, &ban) {
                if contains_id(mine, act.actor_cell_id) {
                    my.push(act.champion_id);
                    assert(my_before + turn_bans_of_mine(turn@.take(j as int), mine@).push(act.champion_id)
                        =~= (my_before + turn_bans_of_mine(turn@.take(j as int), mine@)).push(act.champion_id));
                } else if contains_id(theirs, act.actor_cell_id) {
                    their.push(act.champion_id);
                    assert(their_before + turn_bans_of_theirs(turn@.take(j as int), mine@, theirs@).push(act.champion_id)
                        =~= (their_before + turn_bans_of_theirs(turn@.take(j as int), mine@, theirs@)).push(act.champion_id));
                }
            }
            j = j + 1;
        }
        assert(turn@.take(turn@.len() as int) =~= turn@);
        assert(actions@.take(i + 1).drop_last() =~= actions@.take(i as int));
        assert(actions@.take(i + 1).last() == actions@[i as int]);
        i = i + 1;
    }
    assert(actions@.take(actions@.len() as int) =~= actions@);
    (my, their)
}

/// The draft state of a champ select session.
pub fn draft_state_from_session(session: ChampSelectSession) -> (d: LiveDraftState)
    ensures
        d.in_champ_select,
        d.phase@ == (match session.timer.phase {
            Some(p) => p@,
            None => Seq::<char>::empty(),
        }),
        d.time_left_sec == (match session.timer.time_left_in_phase {
            Some(ms) => Some((ms / 1000) as u64),
            None => None,
        }),
        d.my_team_bans@ == my_bans(session),
        d.their_team_bans@ == their_bans(session),
        d.my_team_picks@ == picked_champions(session.my_team@),
        d.their_team_picks@ == picked_champions(session.their_team@),
        d.local_player_cell_id == (match session.local_player_cell_id {
            Some(c) => c as int,
            None => -1,
        }),
        bans_from_actions(session) ==> d.my_team_bans@ == all_actions(session.actions@).filter(
            |a: ChampSelectAction|
                same_ignoring_ascii_case(a.action_type@, "ban"@) && a.champion_id > 0 && is_cell_of(
                    session.my_team@,
                    a.actor_cell_id,
                ),
        ).map_values(|a: ChampSelectAction| a.champion_id),
        bans_from_actions(session) ==> d.their_team_bans@ == all_actions(session.actions@).filter(
            |a: ChampSelectAction|
                same_ignoring_ascii_case(a.action_type@, "ban"@) && a.champion_id > 0 && !is_cell_of(
                    session.my_team@,
                    a.actor_cell_id,
                ) && is_cell_of(session.their_team@, a.actor_cell_id),
        ).map_values(|a: ChampSelectAction| a.champion_id),
        !bans_from_actions(session) ==> d.my_team_bans@ == session.bans.my_team_bans@
            && d.their_team_bans@ == session.bans.their_team_bans@,
        d.my_team_picks@ == session.my_team@.filter(|c: ChampSelectCell| c.champion_id > 0).map_values(
            |c: ChampSelectCell| c.champion_id,
        ),
        d.their_team_picks@ == session.their_team@.filter(|c: ChampSelectCell| c.champion_id > 0).map_values(
            |c: ChampSelectCell| c.champion_id,
        ),
{
    proof {
        if bans_from_actions(session) {
            law_session_bans_from_actions(session);
        }
        law_picks_are_the_positive_champions(session.my_team@);
        law_picks_are_the_positive_champions(session.their_team@);
    }
    let mine = team_cells(&session.my_team);
    let theirs = team_cells(&session.their_team);
    let (my_team_bans, their_team_bans) = if session.bans.my_team_bans.len() == 0
        && session.bans.their_team_bans.len() == 0 {
        bans_in_actions(&session.actions, &mine, &theirs)
    } else {
        (session.bans.my_team_bans, session.bans.their_team_bans)
    };
    let my_team_picks = team_picks(&session.my_team);
    let their_team_picks = team_picks(&session.their_team);
    let time_left_sec = match session.timer.time_left_in_phase {
        Some(ms) => Some(ms / 1000),
        None => None,
    };
    let phase = match session.timer.phase {
        Some(p) => p,
        None => String::new(),
    };
    let local_player_cell_id = match session.local_player_cell_id {
        Some(c) => c,
        None => -1,
    };
    LiveDraftState {
        in_champ_select: true,
        phase,
        time_left_sec,
        my_team_bans,
        their_team_bans,
        my_team_picks,
        their_team_picks,
        local_player_cell_id,
    }
}


/// What to do with the reply of the champ select session endpoint.
#[derive(Debug)]
pub enum SessionReply {
    /// No champ select is running: report the idle draft state.
    NotInChampSelect,
    /// The endpoint failed; the message says with which status.
    Failed(String),
    /// The body holds a session to decode.
    Decode,
}

/// Whether a reply means that no champ select is running: status 404, or a
/// body that is empty or `null`.
pub open spec fn not_in_champ_select(status: u16, body: Seq<char>) -> bool {
    status == 404 || !body_present(body)
}

/// Reads the status and body of `/lol-champ-select/v1/session`.
pub fn classify_session_reply(status: u16, body: &str) -> (r: SessionReply)
    ensures
        (r is NotInChampSelect) == not_in_champ_select(status, body@),
        (r is Failed) == (!not_in_champ_select(status, body@) && status != 200),
        r matches SessionReply::Failed(m) ==> m@ == "Champ select endpoint returned "@ + decimal_digits(status as nat),
        (r is Decode) == (!not_in_champ_select(status, body@) && status == 200),
{
    if status == 404 || !body_is_present(body) {
        return SessionReply::NotInChampSelect;
    }
    if status != 200 {
        let code = decimal_u64(status as u64);
        return SessionReply::Failed(joined("Champ select endpoint returned ", code.as_str()));
    }
    SessionReply::Decode
}

/// The draft state outside champ select: no phase, no timer, no bans or
/// picks, and no local cell (`-1`).
pub fn idle_draft_state() -> (d: LiveDraftState)
    ensures
        !d.in_champ_select,
        d.phase@ == Seq::<char>::empty(),
        d.time_left_sec is None,
        d.my_team_bans@.len() == 0,
        d.their_team_bans@.len() == 0,
        d.my_team_picks@.len() == 0,
        d.their_team_picks@.len() == 0,
        d.local_player_cell_id == -1,
{
    LiveDraftState {
        in_champ_select: false,
        phase: String::new(),
        time_left_sec: None,
        my_team_bans: Vec::new(),
        their_team_bans: Vec::new(),
        my_team_picks: Vec::new(),
        their_team_picks: Vec::new(),
        local_player_cell_id: -1,
    }
}

/// The message for a session body that is not valid JSON.
pub fn invalid_session_message(detail: &str) -> (m: String)
    ensures
        m@ == "Invalid champ select JSON: "@ + detail@,
{
    joined("Invalid champ select JSON: ", detail)
}

/// Law: every pick is a positive champion id that some cell of the team holds.
pub proof fn law_picks_are_champions_of_the_team(cells: Seq<ChampSelectCell>)
    ensures
        forall|i: int| 0 <= i < picked_champions(cells).len() ==> #[trigger] picked_champions(cells)[i] > 0,
        forall|i: int| 0 <= i < picked_champions(cells).len() ==> exists|k: int|
            0 <= k < cells.len() && cells[k].champion_id == #[trigger] picked_champions(cells)[i],
    decreases cells.len(),
{
    if cells.len() > 0 {
        law_picks_are_champions_of_the_team(cells.drop_last());
        let before = picked_champions(cells.drop_last());
        assert forall|i: int| 0 <= i < picked_champions(cells).len() implies exists|k: int|
            0 <= k < cells.len() && cells[k].champion_id == #[trigger] picked_champions(cells)[i] by {
            if i < before.len() {
                assert(picked_champions(cells)[i] == before[i]);
                let k = choose|k: int| 0 <= k < cells.drop_last().len() && cells.drop_last()[k].champion_id == before[i];
                assert(cells[k] == cells.drop_last()[k]);
            } else {
                assert(cells[cells.len() - 1] == cells.last());
            }
        }
        assert forall|i: int| 0 <= i < picked_champions(cells).len() implies #[trigger] picked_champions(cells)[i] > 0 by {
            if i < before.len() {
                assert(picked_champions(cells)[i] == before[i]);
            }
        }
    }
}

/// The action behind the `i`-th ban of my team in `turn`.
proof fn turn_ban_source_mine(turn: Seq<ChampSelectAction>, mine: Seq<i64>, i: int) -> (k: int)
    requires
        0 <= i < turn_bans_of_mine(turn, mine).len(),
    ensures
        0 <= k < turn.len(),
        is_champion_ban(turn[k]),
        mine.contains(turn[k].actor_cell_id),
        turn[k].champion_id == turn_bans_of_mine(turn, mine)[i],
    decreases turn.len(),
{
    let before = turn_bans_of_mine(turn.drop_last(), mine);
    if i < before.len() {
        assert(turn_bans_of_mine(turn, mine)[i] == before[i]);
        let k = turn_ban_source_mine(turn.drop_last(), mine, i);
        assert(turn[k] == turn.drop_last()[k]);
        k
    } else {
        assert(turn[turn.len() - 1] == turn.last());
        turn.len() - 1
    }
}

/// The action behind the `i`-th ban of the other team in `turn`.
proof fn turn_ban_source_theirs(turn: Seq<ChampSelectAction>, mine: Seq<i64>, theirs: Seq<i64>, i: int) -> (k: int)
    requires
        0 <= i < turn_bans_of_theirs(turn, mine, theirs).len(),
    ensures
        0 <= k < turn.len(),
        is_champion_ban(turn[k]),
        !mine.contains(turn[k].actor_cell_id),
        theirs.contains(turn[k].actor_cell_id),
        turn[k].champion_id == turn_bans_of_theirs(turn, mine, theirs)[i],
    decreases turn.len(),
{
    let before = turn_bans_of_theirs(turn.drop_last(), mine, theirs);
    if i < before.len() {
        assert(turn_bans_of_theirs(turn, mine, theirs)[i] == before[i]);
        let k = turn_ban_source_theirs(turn.drop_last(), mine, theirs, i);
        assert(turn[k] == turn.drop_last()[k]);
        k
    } else {
        assert(turn[turn.len() - 1] == turn.last());
        turn.len() - 1
    }
}

/// The turn and action behind the `i`-th ban of my team in the actions.
proof fn action_ban_source_mine(turns: Seq<Vec<ChampSelectAction>>, mine: Seq<i64>, i: int) -> (tk: (int, int))
    requires
        0 <= i < action_bans_of_mine(turns, mine).len(),
    ensures
        0 <= tk.0 < turns.len(),
        0 <= tk.1 < turns[tk.0]@.len(),
        is_champion_ban(turns[tk.0]@[tk.1]),
        mine.contains(turns[tk.0]@[tk.1].actor_cell_id),
        turns[tk.0]@[tk.1].champion_id == action_bans_of_mine(turns, mine)[i],
    decreases turns.len(),
{
    let before = action_bans_of_mine(turns.drop_last(), mine);
    let last = turns.len() - 1;
    assert(turns.last() == turns[last]);
    if i < before.len() {
        assert(action_bans_of_mine(turns, mine)[i] == before[i]);
        let (t, k) = action_ban_source_mine(turns.drop_last(), mine, i);
        assert(turns[t] == turns.drop_last()[t]);
        (t, k)
    } else {
        let j = i - before.len();
        assert(action_bans_of_mine(turns, mine)[i] == turn_bans_of_mine(turns[last]@, mine)[j]);
        let k = turn_ban_source_mine(turns[last]@, mine, j);
        (last, k)
    }
}

/// The turn and action behind the `i`-th ban of the other team in the actions.
proof fn action_ban_source_theirs(turns: Seq<Vec<ChampSelectAction>>, mine: Seq<i64>, theirs: Seq<i64>, i: int) -> (tk: (int, int))
    requires
        0 <= i < action_bans_of_theirs(turns, mine, theirs).len(),
    ensures
        0 <= tk.0 < turns.len(),
        0 <= tk.1 < turns[tk.0]@.len(),
        is_champion_ban(turns[tk.0]@[tk.1]),
        !mine.contains(turns[tk.0]@[tk.1].actor_cell_id),
        theirs.contains(turns[tk.0]@[tk.1].actor_cell_id),
        turns[tk.0]@[tk.1].champion_id == action_bans_of_theirs(turns, mine, theirs)[i],
    decreases turns.len(),
{
    let before = action_bans_of_theirs(turns.drop_last(), mine, theirs);
    let last = turns.len() - 1;
    assert(turns.last() == turns[last]);
    if i < before.len() {
        assert(action_bans_of_theirs(turns, mine, theirs)[i] == before[i]);
        let (t, k) = action_ban_source_theirs(turns.drop_last(), mine, theirs, i);
        assert(turns[t] == turns.drop_last()[t]);
        (t, k)
    } else {
        let j = i - before.len();
        assert(action_bans_of_theirs(turns, mine, theirs)[i] == turn_bans_of_theirs(turns[last]@, mine, theirs)[j]);
        let k = turn_ban_source_theirs(turns[last]@, mine, theirs, j);
        (last, k)
    }
}

/// Law: every ban read from the actions is a positive champion id, banned by
/// a `ban` action of an actor of that team (and an actor of both teams counts
/// for my team only).
pub proof fn law_action_bans_are_attributed(turns: Seq<Vec<ChampSelectAction>>, mine: Seq<i64>, theirs: Seq<i64>)
    ensures
        forall|i: int| 0 <= i < action_bans_of_mine(turns, mine).len() ==> exists|t: int, k: int|
            0 <= t < turns.len() && 0 <= k < turns[t]@.len() && is_champion_ban(turns[t]@[k])
                && mine.contains(turns[t]@[k].actor_cell_id)
                && turns[t]@[k].champion_id == #[trigger] action_bans_of_mine(turns, mine)[i],
        forall|i: int| 0 <= i < action_bans_of_theirs(turns, mine, theirs).len() ==> exists|t: int, k: int|
            0 <= t < turns.len() && 0 <= k < turns[t]@.len() && is_champion_ban(turns[t]@[k])
                && !mine.contains(turns[t]@[k].actor_cell_id) && theirs.contains(turns[t]@[k].actor_cell_id)
                && turns[t]@[k].champion_id == #[trigger] action_bans_of_theirs(turns, mine, theirs)[i],
{
    assert forall|i: int| 0 <= i < action_bans_of_mine(turns, mine).len() implies exists|t: int, k: int|
        0 <= t < turns.len() && 0 <= k < turns[t]@.len() && is_champion_ban(turns[t]@[k])
            && mine.contains(turns[t]@[k].actor_cell_id)
            && turns[t]@[k].champion_id == #[trigger] action_bans_of_mine(turns, mine)[i] by {
        let (t, k) = action_ban_source_mine(turns, mine, i);
        assert(turns[t]@[k].champion_id == action_bans_of_mine(turns, mine)[i]);
    }
    assert forall|i: int| 0 <= i < action_bans_of_theirs(turns, mine, theirs).len() implies exists|t: int, k: int|
        0 <= t < turns.len() && 0 <= k < turns[t]@.len() && is_champion_ban(turns[t]@[k])
            && !mine.contains(turns[t]@[k].actor_cell_id) && theirs.contains(turns[t]@[k].actor_cell_id)
            && turns[t]@[k].champion_id == #[trigger] action_bans_of_theirs(turns, mine, theirs)[i] by {
        let (t, k) = action_ban_source_theirs(turns, mine, theirs, i);
        assert(turns[t]@[k].champion_id == action_bans_of_theirs(turns, mine, theirs)[i]);
    }
}


/// Every action of the session, turn after turn, in order.
pub open spec fn all_actions(turns: Seq<Vec<ChampSelectAction>>) -> Seq<ChampSelectAction> {
    turns.map_values(|t: Vec<ChampSelectAction>| t@).flatten()
}

/// Whether an action bans a champion for my team: type `ban` in any ASCII
/// case, a positive champion id, and an actor among my team's cells.
pub open spec fn bans_for_mine(mine: Seq<i64>) -> spec_fn(ChampSelectAction) -> bool {
    |a: ChampSelectAction|
        same_ignoring_ascii_case(a.action_type@, "ban"@) && a.champion_id > 0 && mine.contains(a.actor_cell_id)
}

/// Whether an action bans a champion for the other team: type `ban` in any
/// ASCII case, a positive champion id, and an actor among the other team's
/// cells but not among mine.
pub open spec fn bans_for_theirs(mine: Seq<i64>, theirs: Seq<i64>) -> spec_fn(ChampSelectAction) -> bool {
    |a: ChampSelectAction|
        same_ignoring_ascii_case(a.action_type@, "ban"@) && a.champion_id > 0 && !mine.contains(a.actor_cell_id)
            && theirs.contains(a.actor_cell_id)
}

/// The champion of an action.
pub open spec fn champion_of(a: ChampSelectAction) -> i64 {
    a.champion_id
}

proof fn lemma_map_push<A, B>(s: Seq<A>, x: A, f: spec_fn(A) -> B)
    ensures
        s.push(x).map_values(f) == s.map_values(f).push(f(x)),
{
    assert(s.push(x).map_values(f) =~= s.map_values(f).push(f(x)));
}

proof fn lemma_map_add<A, B>(s: Seq<A>, t: Seq<A>, f: spec_fn(A) -> B)
    ensures
        (s + t).map_values(f) == s.map_values(f) + t.map_values(f),
{
    assert((s + t).map_values(f) =~= s.map_values(f) + t.map_values(f));
}

proof fn lemma_turn_bans_mine_filter(turn: Seq<ChampSelectAction>, mine: Seq<i64>)
    ensures
        turn_bans_of_mine(turn, mine) == turn.filter(bans_for_mine(mine)).map_values(|a: ChampSelectAction| champion_of(a)),
    decreases turn.len(),
{
    reveal(Seq::filter);
    if turn.len() > 0 {
        lemma_turn_bans_mine_filter(turn.drop_last(), mine);
        assert(turn.drop_last().push(turn.last()) =~= turn);
        turn.drop_last().lemma_filter_push(turn.last(), bans_for_mine(mine));
        lemma_map_push(turn.drop_last().filter(bans_for_mine(mine)), turn.last(), |a: ChampSelectAction| champion_of(a));
    } else {
        assert(turn.filter(bans_for_mine(mine)) =~= Seq::<ChampSelectAction>::empty());
        assert(turn.filter(bans_for_mine(mine)).map_values(|a: ChampSelectAction| champion_of(a)) =~= Seq::<i64>::empty());
    }
}

proof fn lemma_turn_bans_theirs_filter(turn: Seq<ChampSelectAction>, mine: Seq<i64>, theirs: Seq<i64>)
    ensures
        turn_bans_of_theirs(turn, mine, theirs) == turn.filter(bans_for_theirs(mine, theirs)).map_values(
            |a: ChampSelectAction| champion_of(a),
        ),
    decreases turn.len(),
{
    reveal(Seq::filter);
    if turn.len() > 0 {
        lemma_turn_bans_theirs_filter(turn.drop_last(), mine, theirs);
        assert(turn.drop_last().push(turn.last()) =~= turn);
        turn.drop_last().lemma_filter_push(turn.last(), bans_for_theirs(mine, theirs));
        lemma_map_push(turn.drop_last().filter(bans_for_theirs(mine, theirs)), turn.last(), |a: ChampSelectAction| champion_of(a));
    } else {
        assert(turn.filter(bans_for_theirs(mine, theirs)) =~= Seq::<ChampSelectAction>::empty());
        assert(turn.filter(bans_for_theirs(mine, theirs)).map_values(|a: ChampSelectAction| champion_of(a)) =~= Seq::<i64>::empty());
    }
}

proof fn lemma_all_actions_step(turns: Seq<Vec<ChampSelectAction>>)
    requires
        turns.len() > 0,
    ensures
        all_actions(turns) == all_actions(turns.drop_last()) + turns.last()@,
{
    let f = |t: Vec<ChampSelectAction>| t@;
    assert(turns.map_values(f) =~= turns.drop_last().map_values(f).push(turns.last()@));
    turns.drop_last().map_values(f).lemma_flatten_push(turns.last()@);
}

/// Law: the bans read from the actions are exactly the champions of the ban
/// actions of each team, every one of them, once per action, in action order:
/// my team's are the champions of the `ban` actions (any ASCII case) with a
/// positive champion whose actor is one of my cells; the other team's those
/// whose actor is one of their cells and not one of mine.
pub proof fn law_action_bans_are_the_ban_actions(turns: Seq<Vec<ChampSelectAction>>, mine: Seq<i64>, theirs: Seq<i64>)
    ensures
        action_bans_of_mine(turns, mine) == all_actions(turns).filter(
            |a: ChampSelectAction|
                same_ignoring_ascii_case(a.action_type@, "ban"@) && a.champion_id > 0 && mine.contains(
                    a.actor_cell_id,
                ),
        ).map_values(|a: ChampSelectAction| a.champion_id),
        action_bans_of_theirs(turns, mine, theirs) == all_actions(turns).filter(
            |a: ChampSelectAction|
                same_ignoring_ascii_case(a.action_type@, "ban"@) && a.champion_id > 0 && !mine.contains(
                    a.actor_cell_id,
                ) && theirs.contains(a.actor_cell_id),
        ).map_values(|a: ChampSelectAction| a.champion_id),
    decreases turns.len(),
{
    assert(bans_for_mine(mine) =~= (|a: ChampSelectAction|
        same_ignoring_ascii_case(a.action_type@, "ban"@) && a.champion_id > 0 && mine.contains(a.actor_cell_id)));
    assert(bans_for_theirs(mine, theirs) =~= (|a: ChampSelectAction|
        same_ignoring_ascii_case(a.action_type@, "ban"@) && a.champion_id > 0 && !mine.contains(a.actor_cell_id)
            && theirs.contains(a.actor_cell_id)));
    let cm = |a: ChampSelectAction| champion_of(a);
    let direct = |a: ChampSelectAction| a.champion_id;
    if turns.len() == 0 {
        assert(all_actions(turns) =~= Seq::<ChampSelectAction>::empty()) by {
            assert(turns.map_values(|t: Vec<ChampSelectAction>| t@) =~= Seq::<Seq<ChampSelectAction>>::empty());
        }
        reveal(Seq::filter);
        assert(all_actions(turns).filter(bans_for_mine(mine)) =~= Seq::<ChampSelectAction>::empty());
        assert(all_actions(turns).filter(bans_for_theirs(mine, theirs)) =~= Seq::<ChampSelectAction>::empty());
        assert(all_actions(turns).filter(bans_for_mine(mine)).map_values(direct) =~= Seq::<i64>::empty());
        assert(all_actions(turns).filter(bans_for_theirs(mine, theirs)).map_values(direct) =~= Seq::<i64>::empty());
    } else {
        law_action_bans_are_the_ban_actions(turns.drop_last(), mine, theirs);
        lemma_all_actions_step(turns);
        let before = all_actions(turns.drop_last());
        let last = turns.last()@;
        lemma_turn_bans_mine_filter(last, mine);
        lemma_turn_bans_theirs_filter(last, mine, theirs);
        Seq::filter_distributes_over_add(before, last, bans_for_mine(mine));
        Seq::filter_distributes_over_add(before, last, bans_for_theirs(mine, theirs));
        lemma_map_add(before.filter(bans_for_mine(mine)), last.filter(bans_for_mine(mine)), direct);
        lemma_map_add(before.filter(bans_for_theirs(mine, theirs)), last.filter(bans_for_theirs(mine, theirs)), direct);
        assert(last.filter(bans_for_mine(mine)).map_values(cm) =~= last.filter(bans_for_mine(mine)).map_values(direct));
        assert(last.filter(bans_for_theirs(mine, theirs)).map_values(cm) =~= last.filter(bans_for_theirs(mine, theirs)).map_values(direct));
    }
}


/// Whether `x` is the cell id of one of `cells`, and not negative.
pub open spec fn is_cell_of(cells: Seq<ChampSelectCell>, x: i64) -> bool {
    x >= 0 && exists|k: int| 0 <= k < cells.len() && #[trigger] cells[k].cell_id == x
}

/// Law: a team's cell ids are exactly the non-negative cell ids of its cells.
pub proof fn law_team_cell_ids_are_the_cells(cells: Seq<ChampSelectCell>)
    ensures
        forall|x: i64| #[trigger] team_cell_ids(cells).contains(x) <==> is_cell_of(cells, x),
    decreases cells.len(),
{
    if cells.len() > 0 {
        law_team_cell_ids_are_the_cells(cells.drop_last());
        let last = cells.len() - 1;
        assert(cells[last] == cells.last());
        assert forall|x: i64| #[trigger] team_cell_ids(cells).contains(x) <==> is_cell_of(cells, x) by {
            let before = team_cell_ids(cells.drop_last());
            if team_cell_ids(cells).contains(x) {
                if before.contains(x) {
                    assert(is_cell_of(cells.drop_last(), x));
                    let k = choose|k: int| 0 <= k < cells.drop_last().len() && #[trigger] cells.drop_last()[k].cell_id == x;
                    assert(cells[k] == cells.drop_last()[k]);
                } else {
                    let j = choose|j: int| 0 <= j < team_cell_ids(cells).len() && team_cell_ids(cells)[j] == x;
                    if cells.last().cell_id >= 0 {
                        if j < before.len() {
                            assert(before[j] == x);
                        }
                        assert(cells[last].cell_id == x);
                    } else {
                        assert(before[j] == x);
                    }
                }
            }
            if is_cell_of(cells, x) {
                let k = choose|k: int| 0 <= k < cells.len() && #[trigger] cells[k].cell_id == x;
                if k < last {
                    assert(cells.drop_last()[k] == cells[k]);
                    assert(is_cell_of(cells.drop_last(), x));
                    assert(before.contains(x));
                    let j = choose|j: int| 0 <= j < before.len() && before[j] == x;
                    if cells.last().cell_id >= 0 {
                        assert(team_cell_ids(cells) == before.push(cells.last().cell_id));
                        assert(team_cell_ids(cells)[j] == x);
                    } else {
                        assert(team_cell_ids(cells) == before);
                    }
                } else {
                    assert(team_cell_ids(cells) == before.push(x));
                    assert(team_cell_ids(cells)[before.len() as int] == x);
                }
            }
        }
    }
}

/// Law: a team's picks are the champion ids of its cells that hold a
/// positive champion, every one of them, in cell order.
pub proof fn law_picks_are_the_positive_champions(cells: Seq<ChampSelectCell>)
    ensures
        picked_champions(cells) == cells.filter(|c: ChampSelectCell| c.champion_id > 0).map_values(
            |c: ChampSelectCell| c.champion_id,
        ),
    decreases cells.len(),
{
    let p = |c: ChampSelectCell| c.champion_id > 0;
    let f = |c: ChampSelectCell| c.champion_id;
    reveal(Seq::filter);
    if cells.len() > 0 {
        law_picks_are_the_positive_champions(cells.drop_last());
        assert(cells.drop_last().push(cells.last()) =~= cells);
        cells.drop_last().lemma_filter_push(cells.last(), p);
        lemma_map_push(cells.drop_last().filter(p), cells.last(), f);
    } else {
        assert(cells.filter(p) =~= Seq::<ChampSelectCell>::empty());
        assert(cells.filter(p).map_values(f) =~= Seq::<i64>::empty());
    }
}

/// Law: where the session lists no bans, my team's bans are the champions
/// of every `ban` action (any ASCII case) with a positive champion by an
/// actor that is a cell of my team, in action order; the other team's are
/// those by an actor that is a cell of theirs and not of mine.
pub proof fn law_session_bans_from_actions(s: ChampSelectSession)
    requires
        bans_from_actions(s),
    ensures
        my_bans(s) == all_actions(s.actions@).filter(
            |a: ChampSelectAction|
                same_ignoring_ascii_case(a.action_type@, "ban"@) && a.champion_id > 0 && is_cell_of(
                    s.my_team@,
                    a.actor_cell_id,
                ),
        ).map_values(|a: ChampSelectAction| a.champion_id),
        their_bans(s) == all_actions(s.actions@).filter(
            |a: ChampSelectAction|
                same_ignoring_ascii_case(a.action_type@, "ban"@) && a.champion_id > 0 && !is_cell_of(
                    s.my_team@,
                    a.actor_cell_id,
                ) && is_cell_of(s.their_team@, a.actor_cell_id),
        ).map_values(|a: ChampSelectAction| a.champion_id),
{
    let mine = team_cell_ids(s.my_team@);
    let theirs = team_cell_ids(s.their_team@);
    law_action_bans_are_the_ban_actions(s.actions@, mine, theirs);
    law_team_cell_ids_are_the_cells(s.my_team@);
    law_team_cell_ids_are_the_cells(s.their_team@);
    let pm = |a: ChampSelectAction|
        same_ignoring_ascii_case(a.action_type@, "ban"@) && a.champion_id > 0 && is_cell_of(s.my_team@, a.actor_cell_id);
    let pt = |a: ChampSelectAction|
        same_ignoring_ascii_case(a.action_type@, "ban"@) && a.champion_id > 0 && !is_cell_of(s.my_team@, a.actor_cell_id)
            && is_cell_of(s.their_team@, a.actor_cell_id);
    assert(bans_for_mine(mine) =~= pm);
    assert(bans_for_theirs(mine, theirs) =~= pt);
}

} // verus!
