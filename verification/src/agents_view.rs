//! The agents as the operator sees them: every asset with a live stream, and
//! every asset that the journal remembers a session of, each with its most
//! recent sessions.

use vstd::prelude::*;
use crate::headend::Headend;
use crate::ident::NIL;
use crate::idmap::IdMap;

verus! {

/// Most sessions shown per asset.
pub const SESSIONS_SHOWN: usize = 5;

/// A session as the journal holds it.
#[derive(Debug)]
pub struct AgentSessionRow {
    pub asset_id: u128,
    pub asset_name: Option<String>,
    pub site_name: Option<String>,
    pub peer: String,
    pub connected_at: i64,
    pub disconnected_at: Option<i64>,
}

/// A session as the operator sees it.
#[derive(Debug)]
pub struct AgentSessionView {
    pub peer: String,
    pub connected_at: i64,
    pub disconnected_at: Option<i64>,
}

/// An agent as the operator sees it.
#[derive(Debug)]
pub struct AgentView {
    pub asset_id: u128,
    pub asset_name: String,
    pub site_id: u128,
    pub site_name: String,
    pub peer: String,
    pub connected: bool,
    pub connected_at: Option<i64>,
    pub sessions: Vec<AgentSessionView>,
}

/// The content of a session.
pub struct Session {
    pub peer: Seq<char>,
    pub connected_at: i64,
    pub disconnected_at: Option<i64>,
}

impl View for AgentSessionView {
    type V = Session;

    open spec fn view(&self) -> Session {
        Session {
            peer: self.peer@,
            connected_at: self.connected_at,
            disconnected_at: self.disconnected_at,
        }
    }
}

/// The session that a journal row holds.
pub open spec fn session_of(row: &AgentSessionRow) -> Session {
    Session {
        peer: row.peer@,
        connected_at: row.connected_at,
        disconnected_at: row.disconnected_at,
    }
}

/// The sessions of `id` among the first `n` rows: the first five in the
/// order of the rows, which the journal hands over latest first.
pub open spec fn history_upto(rows: Seq<AgentSessionRow>, id: u128, n: nat) -> Seq<Session>
    decreases n,
{
    if n == 0 {
        Seq::empty()
    } else {
        let before = history_upto(rows, id, (n - 1) as nat);
        if rows[n - 1].asset_id == id && before.len() < SESSIONS_SHOWN {
            before.push(session_of(&rows[n - 1]))
        } else {
            before
        }
    }
}

/// The sessions of `id` that are shown.
pub open spec fn history(rows: Seq<AgentSessionRow>, id: u128) -> Seq<Session> {
    history_upto(rows, id, rows.len())
}

/// The place of the last of the first `n` rows that is of `id`.
pub open spec fn last_session_row(rows: Seq<AgentSessionRow>, id: u128, n: nat) -> Option<int>
    decreases n,
{
    if n == 0 {
        None
    } else if rows[n - 1].asset_id == id {
        Some(n - 1)
    } else {
        last_session_row(rows, id, (n - 1) as nat)
    }
}

/// The place of the first of the first `n` sessions that is still open.
pub open spec fn first_open(sessions: Seq<Session>, n: nat) -> Option<int>
    decreases n,
{
    if n == 0 {
        None
    } else {
        match first_open(sessions, (n - 1) as nat) {
            Some(k) => Some(k),
            None => if sessions[n - 1].disconnected_at is None {
                Some(n - 1)
            } else {
                None
            },
        }
    }
}

/// The sessions of an asset whose agent is connected from `peer` since
/// `at`: the first open session is the live one and shows `peer`; any other
/// open session is shown as ended at `at`; where no session is open, the
/// live one is put in front.
pub open spec fn claimed(sessions: Seq<Session>, peer: Seq<char>, at: i64) -> Seq<Session> {
    match first_open(sessions, sessions.len()) {
        Some(k) => Seq::new(
            sessions.len(),
            |i: int|
                if i == k {
                    Session { peer, ..sessions[i] }
                } else if sessions[i].disconnected_at is None {
                    Session { disconnected_at: Some(at), ..sessions[i] }
                } else {
                    sessions[i]
                },
        ),
        None => seq![Session { peer, connected_at: at, disconnected_at: None }] + sessions,
    }
}

/// `text` where there is one, else `fallback`.
pub open spec fn name_or(text: Option<String>, fallback: Seq<char>) -> Seq<char> {
    match text {
        Some(t) => t@,
        None => fallback,
    }
}

/// `own` unless it is empty, else `fallback`.
pub open spec fn unless_empty(own: Seq<char>, fallback: Seq<char>) -> Seq<char> {
    if own.len() == 0 {
        fallback
    } else {
        own
    }
}

/// `view` shows the connected agent of `id`.
pub open spec fn is_connected_view(
    headend: &Headend,
    rows: Seq<AgentSessionRow>,
    id: u128,
    view: &AgentView,
) -> bool {
    let stream = headend.registry.streams@[id];
    let known = headend.sim.assets@.contains_key(id);
    let asset = headend.sim.assets@[id];
    &&& view.asset_id == id
    &&& view.connected
    &&& view.peer@ == stream.peer@
    &&& view.site_id == if known {
        asset.site_id
    } else {
        stream.site_id
    }
    &&& view.asset_name@ == if known {
        asset.name@
    } else {
        stream.asset_name@
    }
    &&& view.site_name@ == if known {
        asset.site_name@
    } else {
        stream.site_name@
    }
    &&& view.sessions@.map_values(|s: AgentSessionView| s@) == claimed(
        history(rows, id),
        stream.peer@,
        stream.connected_at,
    )
    &&& view.connected_at == Some(view.sessions[0].connected_at)
}

/// `view` shows the agent of `id`, which is not connected but remembered.
pub open spec fn is_remembered_view(
    headend: &Headend,
    rows: Seq<AgentSessionRow>,
    id: u128,
    view: &AgentView,
) -> bool {
    let last = rows[last_session_row(rows, id, rows.len())->0];
    let known = headend.sim.assets@.contains_key(id);
    let asset = headend.sim.assets@[id];
    let asset_name = name_or(last.asset_name, "<unknown>"@);
    let site_name = name_or(last.site_name, "<unknown>"@);
    &&& view.asset_id == id
    &&& !view.connected
    &&& history(rows, id).len() > 0
    &&& view.sessions@.map_values(|s: AgentSessionView| s@) == history(rows, id)
    &&& view.peer@ == history(rows, id)[0].peer
    &&& view.connected_at == Some(history(rows, id)[0].connected_at)
    &&& view.site_id == if known {
        asset.site_id
    } else {
        NIL
    }
    &&& view.asset_name@ == if known {
        unless_empty(asset.name@, asset_name)
    } else {
        asset_name
    }
    &&& view.site_name@ == if known {
        unless_empty(asset.site_name@, site_name)
    } else {
        site_name
    }
}

/// The sessions of `id` that are shown.
fn history_of(rows: &Vec<AgentSessionRow>, id: u128) -> (sessions: Vec<AgentSessionView>)
    ensures
        sessions@.map_values(|s: AgentSessionView| s@) == history(rows@, id),
        sessions.len() <= SESSIONS_SHOWN,
{
    let mut sessions: Vec<AgentSessionView> = Vec::new();
    let mut i: usize = 0;
    while i < rows.len()
        invariant
            i <= rows.len(),
            sessions.len() <= SESSIONS_SHOWN,
            sessions@.map_values(|s: AgentSessionView| s@) == history_upto(rows@, id, i as nat),
        decreases rows.len() - i,
    {
        if rows[i].asset_id == id && sessions.len() < SESSIONS_SHOWN {
            let ghost before = sessions@;
            sessions.push(
                AgentSessionView {
                    peer: rows[i].peer.clone(),
                    connected_at: rows[i].connected_at,
                    disconnected_at: rows[i].disconnected_at,
                },
            );
            proof {
                assert(sessions@.map_values(|s: AgentSessionView| s@) =~= before.map_values(
                    |s: AgentSessionView| s@,
                ).push(session_of(&rows@[i as int])));
            }
        }
        i += 1;
    }
    sessions
}

/// The last row of `id`.
fn find_last_row(rows: &Vec<AgentSessionRow>, id: u128) -> (place: Option<usize>)
    ensures
        match place {
            Some(k) => k < rows.len() && last_session_row(rows@, id, rows@.len()) == Some(k as int),
            None => last_session_row(rows@, id, rows@.len()) is None,
        },
{
    let mut n: usize = rows.len();
    while n > 0
        invariant
            n <= rows.len(),
            last_session_row(rows@, id, rows@.len()) == last_session_row(rows@, id, n as nat),
        decreases n,
    {
        if rows[n - 1].asset_id == id {
            return Some(n - 1);
        }
        n -= 1;
    }
    None
}

/// Where the first `n` sessions have an open one, the first open one is
/// among them and open, and none before it is.
pub proof fn lemma_first_open(sessions: Seq<Session>, n: nat)
    requires
        n <= sessions.len(),
    ensures
        match first_open(sessions, n) {
            Some(k) => 0 <= k < n && sessions[k].disconnected_at is None && forall|j: int|
                0 <= j < k ==> (#[trigger] sessions[j]).disconnected_at is Some,
            None => forall|j: int| 0 <= j < n ==> (#[trigger] sessions[j]).disconnected_at is Some,
        },
    decreases n,
{
    if n > 0 {
        lemma_first_open(sessions, (n - 1) as nat);
    }
}

/// Marks the live session among `sessions` for an agent connected from
/// `peer` since `at`.
fn claim(sessions: Vec<AgentSessionView>, peer: &String, at: i64) -> (merged: Vec<AgentSessionView>)
    ensures
        merged@.map_values(|s: AgentSessionView| s@) == claimed(
            sessions@.map_values(|s: AgentSessionView| s@),
            peer@,
            at,
        ),
        merged.len() > 0,
{
    let ghost before = sessions@.map_values(|s: AgentSessionView| s@);
    let mut merged: Vec<AgentSessionView> = Vec::new();
    let mut found: bool = false;
    let mut i: usize = 0;
    while i < sessions.len()
        invariant
            before == sessions@.map_values(|s: AgentSessionView| s@),
            i <= sessions.len(),
            merged.len() == i,
            found == (first_open(before, i as nat) is Some),
            forall|j: int|
                0 <= j < i ==> (#[trigger] merged[j])@ == if first_open(before, i as nat) == Some(
                    j,
                ) {
                    Session { peer: peer@, ..before[j] }
                } else if before[j].disconnected_at is None {
                    Session { disconnected_at: Some(at), ..before[j] }
                } else {
                    before[j]
                },
        decreases sessions.len() - i,
    {
        proof {
            lemma_first_open(before, i as nat);
            lemma_first_open(before, (i + 1) as nat);
            assert(before[i as int] == sessions@[i as int]@);
        }
        let session: &AgentSessionView = &sessions[i];
        let next = if session.disconnected_at.is_none() {
            if !found {
                found = true;
                AgentSessionView {
                    peer: peer.clone(),
                    connected_at: session.connected_at,
                    disconnected_at: None,
                }
            } else {
                AgentSessionView {
                    peer: session.peer.clone(),
                    connected_at: session.connected_at,
                    disconnected_at: Some(at),
                }
            }
        } else {
            AgentSessionView {
                peer: session.peer.clone(),
                connected_at: session.connected_at,
                disconnected_at: session.disconnected_at,
            }
        };
        merged.push(next);
        i += 1;
    }
    if !found {
        merged.insert(
            0,
            AgentSessionView { peer: peer.clone(), connected_at: at, disconnected_at: None },
        );
        proof {
            lemma_first_open(before, before.len());
            assert(merged@.map_values(|s: AgentSessionView| s@) =~= claimed(before, peer@, at));
        }
    } else {
        proof {
            assert(merged@.map_values(|s: AgentSessionView| s@) =~= claimed(before, peer@, at));
        }
    }
    merged
}

/// A copy of `text` where there is one, else of `fallback`.
fn owned_name(text: &Option<String>, fallback: &str) -> (name: String)
    ensures
        name@ == name_or(*text, fallback@),
{
    match text {
        Some(t) => t.clone(),
        None => fallback.to_owned(),
    }
}

/// A copy of `own` unless it is empty, else `fallback`.
fn preferred(own: &String, fallback: String) -> (name: String)
    ensures
        name@ == unless_empty(own@, fallback@),
{
    if own.as_str().is_empty() {
        fallback
    } else {
        own.clone()
    }
}

/// One of the first `n` rows is of `id`.
pub open spec fn remembered(rows: Seq<AgentSessionRow>, id: u128, n: int) -> bool {
    exists|k: int| 0 <= k < n && #[trigger] rows[k].asset_id == id
}

/// An asset that a row is of has a last row and a session to show.
pub proof fn lemma_remembered(rows: Seq<AgentSessionRow>, id: u128, n: nat)
    requires
        n <= rows.len(),
    ensures
        remembered(rows, id, n as int) <==> last_session_row(rows, id, n) is Some,
        remembered(rows, id, n as int) <==> history_upto(rows, id, n).len() > 0,
        last_session_row(rows, id, n) is Some ==> 0 <= last_session_row(rows, id, n)->0 < n,
    decreases n,
{
    if n > 0 {
        lemma_remembered(rows, id, (n - 1) as nat);
        if remembered(rows, id, (n - 1) as int) {
            let k = choose|k: int| 0 <= k < n - 1 && #[trigger] rows[k].asset_id == id;
            assert(0 <= k < n && rows[k].asset_id == id);
        }
        if rows[n - 1].asset_id == id {
            assert(remembered(rows, id, n as int));
        }
        if remembered(rows, id, n as int) && rows[n - 1].asset_id != id {
            let k = choose|k: int| 0 <= k < n && #[trigger] rows[k].asset_id == id;
            assert(0 <= k < n - 1 && rows[k].asset_id == id);
        }
    }
}

/// The agents as the operator sees them: first those with a live stream,
/// then those that are only remembered, each group in order of identifier.
/// `rows` are the sessions that the journal remembers, latest first.
pub fn list_agents(headend: &Headend, rows: &Vec<AgentSessionRow>) -> (list: Vec<AgentView>)
    requires
        headend.wf(),
    ensures
        list.len() >= headend.registry.streams.ids().len(),
        forall|i: int|
            0 <= i < headend.registry.streams.ids().len() ==> is_connected_view(
                headend,
                rows@,
                headend.registry.streams.ids()[i],
                &#[trigger] list[i],
            ),
        forall|i: int|
            headend.registry.streams.ids().len() <= i < list.len() ==> {
                &&& !headend.registry.streams@.contains_key((#[trigger] list[i]).asset_id)
                &&& remembered(rows@, list[i].asset_id, rows@.len() as int)
                &&& is_remembered_view(headend, rows@, list[i].asset_id, &list[i])
            },
        forall|a: int, b: int|
            headend.registry.streams.ids().len() <= a < b < list.len() ==> list[a].asset_id
                < list[b].asset_id,
        forall|k: int|
            0 <= k < rows.len() && !headend.registry.streams@.contains_key(
                (#[trigger] rows[k]).asset_id,
            ) ==> shows_agent(list@, rows[k].asset_id),
{
    let mut list: Vec<AgentView> = Vec::new();
    let n: usize = headend.registry.streams.len();
    let mut i: usize = 0;
    while i < n
        invariant
            headend.wf(),
            n == headend.registry.streams.ids().len(),
            i <= n,
            list.len() == i,
            forall|j: int|
                0 <= j < i ==> is_connected_view(
                    headend,
                    rows@,
                    headend.registry.streams.ids()[j],
                    &#[trigger] list[j],
                ),
        decreases n - i,
    {
        proof {
            headend.registry.streams.lemma_entry(i as int);
        }
        let id: u128 = headend.registry.streams.id_at(i);
        let stream = headend.registry.streams.item_at(i);
        let sessions: Vec<AgentSessionView> = claim(
            history_of(rows, id),
            &stream.peer,
            stream.connected_at,
        );
        let (site_id, asset_name, site_name) = match headend.sim.assets.get(id) {
            Some(asset) => (asset.site_id, asset.name.clone(), asset.site_name.clone()),
            None => (stream.site_id, stream.asset_name.clone(), stream.site_name.clone()),
        };
        let connected_at: Option<i64> = Some(sessions[0].connected_at);
        let ghost before = list@;
        list.push(
            AgentView {
                asset_id: id,
                asset_name,
                site_id,
                site_name,
                peer: stream.peer.clone(),
                connected: true,
                connected_at,
                sessions,
            },
        );
        proof {
            assert forall|j: int| 0 <= j < i implies list[j] == before[j] by {}
        }
        i += 1;
    }
    let mut seen: IdMap<bool> = IdMap::new();
    let mut k: usize = 0;
    while k < rows.len()
        invariant
            k <= rows.len(),
            seen.wf(),
            forall|id: u128| #[trigger] seen@.contains_key(id) <==> remembered(rows@, id, k as int),
        decreases rows.len() - k,
    {
        let ghost before = seen@;
        seen.insert(rows[k].asset_id, true);
        proof {
            assert forall|id: u128| #[trigger] seen@.contains_key(id) <==> remembered(
                rows@,
                id,
                k + 1,
            ) by {
                if remembered(rows@, id, k as int) {
                    let j = choose|j: int| 0 <= j < k && #[trigger] rows[j].asset_id == id;
                    assert(0 <= j < k + 1 && rows[j].asset_id == id);
                }
                if id == rows[k as int].asset_id {
                    assert(remembered(rows@, id, k + 1));
                }
                if remembered(rows@, id, k + 1) && id != rows[k as int].asset_id {
                    let j = choose|j: int| 0 <= j < k + 1 && #[trigger] rows[j].asset_id == id;
                    assert(0 <= j < k && rows[j].asset_id == id);
                }
            }
        }
        k += 1;
    }
    let m: usize = seen.len();
    let mut s: usize = 0;
    while s < m
        invariant
            headend.wf(),
            n == headend.registry.streams.ids().len(),
            seen.wf(),
            m == seen.ids().len(),
            forall|id: u128|
                #[trigger] seen@.contains_key(id) <==> remembered(rows@, id, rows@.len() as int),
            s <= m,
            list.len() >= n,
            forall|j: int|
                0 <= j < n ==> is_connected_view(
                    headend,
                    rows@,
                    headend.registry.streams.ids()[j],
                    &#[trigger] list[j],
                ),
            forall|j: int|
                n <= j < list.len() ==> {
                    &&& !headend.registry.streams@.contains_key((#[trigger] list[j]).asset_id)
                    &&& remembered(rows@, list[j].asset_id, rows@.len() as int)
                    &&& is_remembered_view(headend, rows@, list[j].asset_id, &list[j])
                    &&& s > 0
                    &&& list[j].asset_id <= seen.ids()[s - 1]
                },
            forall|a: int, b: int| n <= a < b < list.len() ==> list[a].asset_id < list[b].asset_id,
            forall|t: int|
                0 <= t < s && !headend.registry.streams@.contains_key(seen.ids()[t])
                    ==> shows_agent(list@, #[trigger] seen.ids()[t]),
        decreases m - s,
    {
        proof {
            seen.lemma_entry(s as int);
            if s > 0 {
                assert(seen.ids()[s - 1] < seen.ids()[s as int]);
            }
        }
        let id: u128 = seen.id_at(s);
        let ghost before = list@;
        if !headend.registry.streams.contains_key(id) {
            proof {
                lemma_remembered(rows@, id, rows@.len());
            }
            let sessions: Vec<AgentSessionView> = history_of(rows, id);
            let (asset_name, site_name) = match find_last_row(rows, id) {
                Some(last) => (
                    owned_name(&rows[last].asset_name, "<unknown>"),
                    owned_name(&rows[last].site_name, "<unknown>"),
                ),
                None => ("<unknown>".to_owned(), "<unknown>".to_owned()),
            };
            let (site_id, asset_name, site_name) = match headend.sim.assets.get(id) {
                Some(asset) => (
                    asset.site_id,
                    preferred(&asset.name, asset_name),
                    preferred(&asset.site_name, site_name),
                ),
                None => (NIL, asset_name, site_name),
            };
            proof {
                assert(sessions@.map_values(|s: AgentSessionView| s@).len() == sessions@.len());
                assert(sessions@.map_values(|s: AgentSessionView| s@)[0] == sessions@[0]@);
            }
            let peer: String = sessions[0].peer.clone();
            let connected_at: Option<i64> = Some(sessions[0].connected_at);
            list.push(
                AgentView {
                    asset_id: id,
                    asset_name,
                    site_id,
                    site_name,
                    peer,
                    connected: false,
                    connected_at,
                    sessions,
                },
            );
            proof {
                assert forall|j: int| 0 <= j < before.len() implies list[j] == before[j] by {}
                assert(list[list.len() - 1].asset_id == id);
            }
        }
        proof {
            assert forall|t: int|
                0 <= t < s + 1 && !headend.registry.streams@.contains_key(
                    seen.ids()[t],
                ) implies shows_agent(list@, #[trigger] seen.ids()[t]) by {
                if t < s {
                    assert(shows_agent(before, seen.ids()[t]));
                    let p = choose|p: int| 0 <= p < before.len()
                        && (#[trigger] before[p]).asset_id == seen.ids()[t];
                    assert(list[p] == before[p]);
                } else {
                    assert(list[list.len() - 1].asset_id == id);
                }
            }
        }
        s += 1;
    }
    proof {
        assert forall|k: int|
            0 <= k < rows.len() && !headend.registry.streams@.contains_key(
                (#[trigger] rows[k]).asset_id,
            ) implies shows_agent(list@, rows[k].asset_id) by {
            let id = rows[k].asset_id;
            assert(remembered(rows@, id, rows@.len() as int));
            assert(seen@.contains_key(id));
            seen.lemma_key(id);
            let t = crate::idmap::place_of(seen.ids(), id);
            assert(seen.ids()[t] == id);
        }
    }
    list
}

/// One of `list` shows the agent of `id`.
pub open spec fn shows_agent(list: Seq<AgentView>, id: u128) -> bool {
    exists|p: int| 0 <= p < list.len() && (#[trigger] list[p]).asset_id == id
}

} // verus!
