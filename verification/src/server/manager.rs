//! All servers of this node.
use vstd::prelude::*;
use std::collections::HashMap;
use crate::codec;
use crate::error::{AppError, AppResult};
use crate::ids;
use crate::json;
use crate::json::{Doc, Json};
use crate::server::events;
use crate::server::server::{Server, ServerState};
use crate::text;

verus! {

broadcast use vstd::std_specs::hash::group_hash_axioms;

/// The servers of this node by their UUIDs.
pub struct ServerManager<S> {
    servers: HashMap<u128, S>,
}

impl<S> View for ServerManager<S> {
    type V = Map<u128, S>;

    closed spec fn view(&self) -> Map<u128, S> {
        self.servers@
    }
}

impl<S> ServerManager<S> {
    /// A node without servers.
    pub fn new() -> (r: Self)
        ensures
            r@ == Map::<u128, S>::empty(),
    {
        ServerManager { servers: HashMap::new() }
    }

    /// The server with this UUID.
    pub fn get(&self, uuid: u128) -> (r: AppResult<&S>)
        ensures
            match r {
                Ok(s) => self@.contains_key(uuid) && *s == self@[uuid],
                Err(e) => !self@.contains_key(uuid) && e is ServerNotFound,
            },
    {
        match self.servers.get(&uuid) {
            Some(s) => Ok(s),
            None => Err(AppError::ServerNotFound),
        }
    }

    pub fn contains(&self, uuid: u128) -> (r: bool)
        ensures
            r == self@.contains_key(uuid),
    {
        self.servers.contains_key(&uuid)
    }

    /// The UUIDs of all servers, each once.
    pub fn all_uuids(&self) -> (r: Vec<u128>)
        ensures
            r@.to_set() == self@.dom(),
            r@.no_duplicates(),
    {
        let mut out: Vec<u128> = Vec::new();
        let ghost keys = vstd::std_specs::iter::IteratorSpec::remaining(&self.servers.keys());
        for k in it: self.servers.keys()
            invariant
                out@ =~= it.seq().unref().take(it.index()),
                it.seq() == keys,
        {
            out.push(*k);
        }
        assert(out@ =~= keys.unref());
        out
    }

    /// All servers, each once.
    pub fn list(&self) -> (r: Vec<(u128, &S)>)
        ensures
            r@.map_values(|e: (u128, &S)| e.0).to_set() == self@.dom(),
            r@.map_values(|e: (u128, &S)| e.0).no_duplicates(),
            forall|i: int|
                0 <= i < r@.len() ==> *(#[trigger] r@[i]).1 == self@[r@[i].0],
    {
        let uuids = self.all_uuids();
        let mut out: Vec<(u128, &S)> = Vec::new();
        let mut i: usize = 0;
        while i < uuids.len()
            invariant
                i <= uuids.len(),
                uuids@.to_set() == self@.dom(),
                out@.len() == i,
                forall|k: int|
                    0 <= k < i ==> (#[trigger] out@[k]).0 == uuids@[k] && *out@[k].1
                        == self@[uuids@[k]],
            decreases uuids.len() - i,
        {
            assert(uuids@.to_set().contains(uuids@[i as int]));
            if let Ok(s) = self.get(uuids[i]) {
                out.push((uuids[i], s));
            }
            i = i + 1;
        }
        assert(out@.map_values(|e: (u128, &S)| e.0) =~= uuids@);
        out
    }

    /// Adds a server with the settings that the panel has for it, or fails as their
    /// fetching did. One that is there already stays as it is, and nothing is asked.
    pub fn register(&mut self, uuid: u128, fetched: AppResult<S>) -> (r: AppResult<()>)
        ensures
            if old(self)@.contains_key(uuid) {
                r is Ok && final(self)@ == old(self)@
            } else {
                match fetched {
                    Ok(server) => r is Ok && final(self)@ == old(self)@.insert(uuid, server),
                    Err(e) => r == Err::<(), AppError>(e) && final(self)@ == old(self)@,
                }
            },
    {
        if self.contains(uuid) {
            return Ok(());
        }
        match fetched {
            Ok(server) => {
                self.insert(uuid, server);
                Ok(())
            },
            Err(e) => Err(e),
        }
    }

    /// Adds a server, or puts another one in its place.
    pub fn insert(&mut self, uuid: u128, server: S)
        ensures
            final(self)@ == old(self)@.insert(uuid, server),
    {
        self.servers.insert(uuid, server);
    }

    /// Forgets a server.
    pub fn remove(&mut self, uuid: u128)
        ensures
            final(self)@ == old(self)@.remove(uuid),
    {
        self.servers.remove(&uuid);
    }
}

impl ServerManager<Server> {
    /// Marks a server as suspended or not.
    pub fn set_suspended(&mut self, uuid: u128, suspended: bool) -> (r: AppResult<()>)
        ensures
            if old(self)@.contains_key(uuid) {
                r is Ok && final(self)@ == old(self)@.insert(
                    uuid,
                    (Server { suspended, ..old(self)@[uuid] }),
                )
            } else {
                r matches Err(e) && e is ServerNotFound && final(self)@ == old(self)@
            },
    {
        match self.servers.remove(&uuid) {
            Some(server) => {
                let mut server = server;
                server.suspended = suspended;
                self.servers.insert(uuid, server);
                assert(self@ =~= old(self)@.insert(
                    uuid,
                    (Server { suspended, ..old(self)@[uuid] }),
                ));
                Ok(())
            },
            None => {
                assert(self@ =~= old(self)@);
                Err(AppError::ServerNotFound)
            },
        }
    }
}

// ---------------------------------------------------------------------------
// Containers that belong to nobody
// ---------------------------------------------------------------------------
/// Whether a container belongs to one of the known servers: to its process or to
/// its installation.
pub open spec fn belongs(name: Seq<char>, known: Seq<Seq<char>>) -> bool {
    exists|i: int|
        0 <= i < known.len() && (name == #[trigger] known[i] || name == known[i] + "_installer"@)
}

/// The containers that belong to no known server.
pub open spec fn orphans_of(containers: Seq<Seq<char>>, known: Seq<Seq<char>>) -> Seq<Seq<char>>
    decreases containers.len(),
{
    if containers.len() == 0 {
        Seq::empty()
    } else {
        let rest = orphans_of(containers.drop_last(), known);
        if belongs(containers.last(), known) {
            rest
        } else {
            rest.push(containers.last())
        }
    }
}

fn is_known(name: &str, known: &Vec<String>) -> (r: bool)
    ensures
        r == belongs(name@, text::texts(known@)),
{
    let mut i: usize = 0;
    while i < known.len()
        invariant
            i <= known.len(),
            forall|j: int|
                0 <= j < i ==> name@ != (#[trigger] text::texts(known@)[j]) && name@ != text::texts(
                    known@,
                )[j] + "_installer"@,
        decreases known.len() - i,
    {
        assert(text::texts(known@)[i as int] == known@[i as int]@);
        if text::same(name, known[i].as_str()) {
            return true;
        }
        let installer = text::cat(known[i].as_str(), "_installer");
        if text::same(name, installer.as_str()) {
            return true;
        }
        i = i + 1;
    }
    false
}

/// The containers that belong to no known server, and are removed.
pub fn cleanup_orphaned_containers(containers: &Vec<String>, known: &Vec<String>) -> (r: Vec<
    String,
>)
    ensures
        text::texts(r@) == orphans_of(text::texts(containers@), text::texts(known@)),
{
    let ghost all = text::texts(containers@);
    let ghost names = text::texts(known@);
    let mut out: Vec<String> = Vec::new();
    let mut i: usize = 0;
    assert(text::texts(out@) =~= Seq::<Seq<char>>::empty());
    while i < containers.len()
        invariant
            i <= containers.len(),
            all == text::texts(containers@),
            names == text::texts(known@),
            text::texts(out@) == orphans_of(all.take(i as int), names),
        decreases containers.len() - i,
    {
        assert(all.take(i + 1).drop_last() =~= all.take(i as int));
        let ghost before = out@;
        if !is_known(containers[i].as_str(), known) {
            out.push(containers[i].clone());
            assert(text::texts(out@) =~= text::texts(before).push(all[i as int]));
        }
        i = i + 1;
    }
    assert(all.take(i as int) =~= all);
    out
}

/// The container of a known server, and its installer, are never removed as
/// orphans; every other container is.
pub proof fn law_orphans_belong_to_nobody(containers: Seq<Seq<char>>, known: Seq<Seq<char>>, name: Seq<char>)
    ensures
        orphans_of(containers, known).contains(name) <==> containers.contains(name) && !belongs(
            name,
            known,
        ),
    decreases containers.len(),
{
    if containers.len() > 0 {
        let rest = containers.drop_last();
        law_orphans_belong_to_nobody(rest, known, name);
        let o = orphans_of(containers, known);
        let p = orphans_of(rest, known);
        assert(containers =~= rest.push(containers.last()));
        assert(containers.contains(name) <==> rest.contains(name) || name == containers.last()) by {
            if rest.contains(name) {
                let i = choose|i: int| 0 <= i < rest.len() && rest[i] == name;
                assert(containers[i] == name);
            }
            if name == containers.last() {
                assert(containers[containers.len() - 1] == name);
            }
            if containers.contains(name) && name != containers.last() {
                let i = choose|i: int| 0 <= i < containers.len() && containers[i] == name;
                assert(rest[i] == name);
            }
        }
        if !belongs(containers.last(), known) {
            assert(o == p.push(containers.last()));
            if p.contains(name) {
                let i = choose|i: int| 0 <= i < p.len() && p[i] == name;
                assert(o[i] == name);
            }
            if name == containers.last() {
                assert(o[o.len() - 1] == name);
            }
            if o.contains(name) && name != containers.last() {
                let i = choose|i: int| 0 <= i < o.len() && o[i] == name;
                assert(p[i] == name);
            }
        }
    } else {
        assert(orphans_of(containers, known) =~= Seq::empty());
    }
}

// ---------------------------------------------------------------------------
// States that outlive the daemon
// ---------------------------------------------------------------------------
/// The states of some servers by their UUIDs.
pub open spec fn states_of(v: Seq<(String, ServerState)>) -> Seq<(Seq<char>, Doc)>
    decreases v.len(),
{
    if v.len() == 0 {
        Seq::empty()
    } else {
        json::put(states_of(v.drop_last()), v.last().0@, Doc::Str(v.last().1.text()))
    }
}

/// The file that keeps the states: one JSON object, with the UUIDs in ascending
/// order.
pub fn persist_states(servers: &Vec<(String, ServerState)>) -> (r: String)
    ensures
        r@ == json::compact(Doc::Object(states_of(servers@))),
{
    let mut m: Vec<(String, Json)> = Vec::new();
    let mut i: usize = 0;
    assert(json::members(m@) =~= Seq::empty());
    while i < servers.len()
        invariant
            i <= servers.len(),
            json::members(m@) == states_of(servers@.take(i as int)),
        decreases servers.len() - i,
    {
        let ghost before = m@;
        assert(servers@.take(i + 1).drop_last() =~= servers@.take(i as int));
        let (at, found) = json::place(&m, servers[i].0.as_str());
        let value = Json::Str(servers[i].1.as_str().to_owned());
        let ghost d = json::doc(value);
        if found {
            m.set(at, (servers[i].0.clone(), value));
        } else {
            m.insert(at, (servers[i].0.clone(), value));
        }
        assert(json::members(m@) =~= json::put(json::members(before), servers@[i as int].0@, d));
        i = i + 1;
    }
    assert(servers@.take(i as int) =~= servers@);
    let all = Json::Object(m);
    proof {
        json::lemma_doc_object(m);
    }
    all.compact_text()
}

/// The state kept for a server is the one that it was last listed with.
pub proof fn law_kept_state_is_the_last(v: Seq<(String, ServerState)>, uuid: String, state: ServerState)
    ensures
        json::lookup(states_of(v.push((uuid, state))), uuid@) == Some(Doc::Str(state.text())),
        json::ascending(states_of(v)),
{
    lemma_states_ascend(v);
    assert(v.push((uuid, state)).drop_last() =~= v);
    json::law_put_lookup(states_of(v), uuid@, Doc::Str(state.text()));
}

proof fn lemma_states_ascend(v: Seq<(String, ServerState)>)
    ensures
        json::ascending(states_of(v)),
        forall|i: int| 0 <= i < states_of(v).len() ==> (#[trigger] states_of(v)[i]).1 is Str,
    decreases v.len(),
{
    if v.len() > 0 {
        lemma_states_ascend(v.drop_last());
        json::lemma_rank(states_of(v.drop_last()), v.last().0@);
        json::law_put_ascending(
            states_of(v.drop_last()),
            v.last().0@,
            Doc::Str(v.last().1.text()),
        );
    }
}

/// States without the one of a server.
pub open spec fn without_state(v: Seq<(u128, Seq<char>)>, u: u128) -> Seq<(u128, Seq<char>)>
    decreases v.len(),
{
    if v.len() == 0 {
        Seq::empty()
    } else if v.last().0 == u {
        without_state(v.drop_last(), u)
    } else {
        without_state(v.drop_last(), u).push(v.last())
    }
}

/// The kept states whose names are UUIDs. Of two names of one UUID the last
/// counts.
pub open spec fn readable_states(v: Seq<(Seq<char>, Seq<char>)>) -> Seq<(u128, Seq<char>)>
    decreases v.len(),
{
    if v.len() == 0 {
        Seq::empty()
    } else {
        let rest = readable_states(v.drop_last());
        match ids::uuid_value(v.last().0) {
            Some(u) => without_state(rest, u).push((u, v.last().1)),
            None => rest,
        }
    }
}

/// No two states are those of one server.
pub open spec fn one_state_each(v: Seq<(u128, Seq<char>)>) -> bool {
    forall|i: int, j: int| 0 <= i < j < v.len() ==> (#[trigger] v[i]).0 != (#[trigger] v[j]).0
}

pub open spec fn states_view(v: Seq<(u128, String)>) -> Seq<(u128, Seq<char>)> {
    v.map_values(|s: (u128, String)| (s.0, s.1@))
}

/// The states that a file keeps; none unless it holds an object of texts.
pub open spec fn states_in(
    parsed: Result<Seq<(Seq<char>, Seq<char>)>, Seq<char>>,
) -> Seq<(Seq<char>, Seq<char>)> {
    match parsed {
        Ok(v) => v,
        Err(_) => Seq::empty(),
    }
}

proof fn lemma_without_state(v: Seq<(u128, Seq<char>)>, u: u128)
    requires
        one_state_each(v),
    ensures
        one_state_each(without_state(v, u)),
        forall|i: int|
            0 <= i < without_state(v, u).len() ==> (#[trigger] without_state(v, u)[i]).0 != u
                && v.contains(without_state(v, u)[i]),
    decreases v.len(),
{
    let w = without_state(v, u);
    if v.len() > 0 {
        let p = v.drop_last();
        let pw = without_state(p, u);
        lemma_without_state(p, u);
        assert forall|i: int| 0 <= i < w.len() implies (#[trigger] w[i]).0 != u && v.contains(
            w[i],
        ) by {
            if i < pw.len() {
                assert(w[i] == pw[i]);
                let k = choose|k: int| 0 <= k < p.len() && p[k] == pw[i];
                assert(v[k] == w[i]);
            } else {
                assert(v[v.len() - 1] == w[i]);
            }
        }
        assert forall|i: int, j: int| 0 <= i < j < w.len() implies (#[trigger] w[i]).0 != (
        #[trigger] w[j]).0 by {
            if j < pw.len() {
                assert(pw[i] == w[i] && pw[j] == w[j]);
            } else {
                assert(w[i] == pw[i]);
                let k = choose|k: int| 0 <= k < p.len() && p[k] == pw[i];
                assert(v[k] == w[i]);
                assert(v[v.len() - 1] == w[j]);
            }
        }
    }
}

/// Whatever a file keeps, every server has at most one state.
pub proof fn law_one_state_each(v: Seq<(Seq<char>, Seq<char>)>)
    ensures
        one_state_each(readable_states(v)),
    decreases v.len(),
{
    if v.len() > 0 {
        law_one_state_each(v.drop_last());
        if let Some(u) = ids::uuid_value(v.last().0) {
            lemma_without_state(readable_states(v.drop_last()), u);
        }
    }
}

/// Reads the file that keeps the states. States under anything but a UUID are
/// dropped, and so is a file that does not hold an object of texts. What was
/// persisted is read back.
pub fn read_states(raw: &[u8]) -> (r: Vec<(u128, String)>)
    ensures
        states_view(r@) == readable_states(states_in(codec::parsed_table(raw@))),
        one_state_each(states_view(r@)),
        forall|v: Seq<(String, ServerState)>|
            raw@ == vstd::utf8::encode_utf8(json::compact(Doc::Object(#[trigger] states_of(v))))
                ==> states_view(r@) == readable_states(codec::texts_of(states_of(v))),
{
    let kept = match codec::parse_table(raw) {
        Ok(v) => v,
        Err(_) => {
            let none: Vec<(String, String)> = Vec::new();
            assert(text::pairs(none@) =~= Seq::empty());
            none
        },
    };
    proof {
        assert forall|v: Seq<(String, ServerState)>|
            raw@ == vstd::utf8::encode_utf8(
                json::compact(Doc::Object(#[trigger] states_of(v))),
            ) implies text::pairs(kept@) == codec::texts_of(states_of(v)) by {
            lemma_states_ascend(v);
            assert(codec::is_written_table(raw@, states_of(v)));
        }
        law_one_state_each(text::pairs(kept@));
    }
    known_states(&kept)
}

/// Takes the state of a server out of a list.
fn drop_state(v: Vec<(u128, String)>, u: u128) -> (r: Vec<(u128, String)>)
    ensures
        states_view(r@) == without_state(states_view(v@), u),
{
    let ghost all = states_view(v@);
    let mut out: Vec<(u128, String)> = Vec::new();
    let mut i: usize = 0;
    assert(states_view(out@) =~= Seq::empty());
    while i < v.len()
        invariant
            i <= v.len(),
            all == states_view(v@),
            states_view(out@) == without_state(all.take(i as int), u),
        decreases v.len() - i,
    {
        assert(all.take(i + 1).drop_last() =~= all.take(i as int));
        let ghost before = out@;
        if v[i].0 != u {
            out.push((v[i].0, v[i].1.clone()));
            assert(states_view(out@) =~= states_view(before).push(all[i as int]));
        }
        i = i + 1;
    }
    assert(all.take(i as int) =~= all);
    out
}

/// The kept states, of which those without a UUID are dropped.
fn known_states(kept: &Vec<(String, String)>) -> (r: Vec<(u128, String)>)
    ensures
        states_view(r@) == readable_states(text::pairs(kept@)),
{
    let ghost all = text::pairs(kept@);
    let mut out: Vec<(u128, String)> = Vec::new();
    let mut i: usize = 0;
    assert(states_view(out@) =~= Seq::empty());
    while i < kept.len()
        invariant
            i <= kept.len(),
            all == text::pairs(kept@),
            states_view(out@) == readable_states(all.take(i as int)),
        decreases kept.len() - i,
    {
        assert(all.take(i + 1).drop_last() =~= all.take(i as int));
        if let Some(u) = ids::parse_uuid(kept[i].0.as_str()) {
            out = drop_state(out, u);
            let ghost before = out@;
            out.push((u, kept[i].1.clone()));
            assert(states_view(out@) =~= states_view(before).push((u, all[i as int].1)));
        }
        i = i + 1;
    }
    assert(all.take(i as int) =~= all);
    out
}

/// What becomes of a server when the daemon starts again.
#[derive(Debug, Clone, Copy, PartialEq, Eq, Structural)]
pub enum Restore {
    /// its container runs: attach to it again
    Attach,
    /// it ran: start it again
    Start,
    Offline,
}

/// What becomes of a server when the daemon starts again, by its container and
/// the state that was kept.
pub open spec fn restored(container_running: bool, state: Seq<char>) -> Restore {
    if container_running {
        Restore::Attach
    } else if state == "running"@ || state == "starting"@ {
        Restore::Start
    } else {
        Restore::Offline
    }
}

/// What becomes of a server when the daemon starts again.
pub fn restore_one(container_running: bool, state: &str) -> (r: Restore)
    ensures
        r == restored(container_running, state@),
{
    if container_running {
        Restore::Attach
    } else if text::same(state, "running") || text::same(state, "starting") {
        Restore::Start
    } else {
        Restore::Offline
    }
}

/// A container that runs is never stopped when the daemon starts again, and a
/// server that ran before is brought back.
pub proof fn law_running_servers_come_back(state: ServerState)
    ensures
        restored(true, state.text()) == Restore::Attach,
        restored(false, state.text()) == (if state == ServerState::Running || state
            == ServerState::Starting {
            Restore::Start
        } else {
            Restore::Offline
        }),
{
    reveal_strlit("running");
    reveal_strlit("starting");
    reveal_strlit("offline");
    reveal_strlit("stopping");
    assert("offline"@[0] == 'o');
    assert("stopping"@[1] == 't' && "starting"@[2] == 'a' && "stopping"@[2] == 'o');
    assert("running"@[0] == 'r' && "starting"@[0] == 's' && "stopping"@[0] == 's');
}

impl Server {
    /// The server runs already, in a container that was started at
    /// `started_at`.
    pub fn mark_started_from_container(&mut self, started_at: Option<u64>)
        ensures
            final(self).same_but_outbox(
                (Server { state: ServerState::Running, started_at, ..*old(self) }),
            ),
            final(self).said() == old(self).said().push(events::status_frame("running"@)),
    {
        self.set_state(ServerState::Running);
        self.started_at = started_at;
    }
}

/// How many servers are asked for at a time.
pub fn page_size(boot_servers_per_page: u64) -> (r: u64)
    ensures
        r == (if boot_servers_per_page == 0 {
            1
        } else {
            boot_servers_per_page
        }),
{
    if boot_servers_per_page == 0 {
        1
    } else {
        boot_servers_per_page
    }
}

/// A container belongs to a server that is known by its name, or by its name with the
/// mark of an installer; to no other.
pub proof fn law_containers_belong_by_name(uuid: Seq<char>, name: Seq<char>, known: Seq<Seq<char>>)
    ensures
        known.contains(uuid) ==> belongs(uuid, known) && belongs(uuid + "_installer"@, known),
        belongs(name, known) ==> known.contains(name) || exists|u: Seq<char>|
            #[trigger] known.contains(u) && name == u + "_installer"@,
        !belongs(name, Seq::empty()),
{
    if known.contains(uuid) {
        let i = choose|i: int| 0 <= i < known.len() && known[i] == uuid;
        assert(known[i] == uuid);
    }
    if belongs(name, known) && !known.contains(name) {
        let i = choose|i: int|
            0 <= i < known.len() && (name == #[trigger] known[i] || name == known[i]
                + "_installer"@);
        assert(known.contains(known[i]));
    }
}

/// The containers that are nobody's stay in the order in which they were listed.
pub proof fn law_orphans_stay_in_order(a: Seq<Seq<char>>, b: Seq<Seq<char>>, known: Seq<Seq<char>>)
    ensures
        orphans_of(a + b, known) == orphans_of(a, known) + orphans_of(b, known),
    decreases b.len(),
{
    if b.len() == 0 {
        assert(a + b =~= a);
        assert(orphans_of(a, known) + orphans_of(b, known) =~= orphans_of(a, known));
    } else {
        law_orphans_stay_in_order(a, b.drop_last(), known);
        assert((a + b).drop_last() =~= a + b.drop_last());
        assert(orphans_of(a + b, known) =~= orphans_of(a, known) + orphans_of(b, known));
    }
}

/// A state that is kept for one server leaves the others' as they are.
pub proof fn law_states_are_kept_apart(
    v: Seq<(String, ServerState)>,
    uuid: String,
    state: ServerState,
    other: Seq<char>,
)
    requires
        other != uuid@,
    ensures
        json::lookup(states_of(v.push((uuid, state))), other) == json::lookup(states_of(v), other),
        json::lookup(states_of(Seq::empty()), other) is None,
{
    lemma_states_ascend(v);
    assert(v.push((uuid, state)).drop_last() =~= v);
    json::law_put_others(states_of(v), uuid@, Doc::Str(state.text()), other);
}

proof fn lemma_without_state_keeps(v: Seq<(u128, Seq<char>)>, u: u128, e: (u128, Seq<char>))
    ensures
        without_state(v, u).contains(e) <==> v.contains(e) && e.0 != u,
    decreases v.len(),
{
    if v.len() > 0 {
        let rest = v.drop_last();
        lemma_without_state_keeps(rest, u, e);
        let a = without_state(rest, u);
        let b = without_state(v, u);
        assert(v =~= rest.push(v.last()));
        assert(v.contains(e) <==> rest.contains(e) || e == v.last()) by {
            if rest.contains(e) {
                let i = choose|i: int| 0 <= i < rest.len() && rest[i] == e;
                assert(v[i] == e);
            }
            if e == v.last() {
                assert(v[v.len() - 1] == e);
            }
            if v.contains(e) && e != v.last() {
                let i = choose|i: int| 0 <= i < v.len() && v[i] == e;
                assert(rest[i] == e);
            }
        }
        if v.last().0 != u {
            assert(b == a.push(v.last()));
            assert(b.contains(e) <==> a.contains(e) || e == v.last()) by {
                if a.contains(e) {
                    let i = choose|i: int| 0 <= i < a.len() && a[i] == e;
                    assert(b[i] == e);
                }
                if e == v.last() {
                    assert(b[b.len() - 1] == e);
                }
                if b.contains(e) && e != v.last() {
                    let i = choose|i: int| 0 <= i < b.len() && b[i] == e;
                    assert(a[i] == e);
                }
            }
        }
    }
}

/// A state that is kept under a UUID is read, unless another is kept under the same
/// UUID behind it; nothing else is read.
pub proof fn law_kept_states_are_read(v: Seq<(Seq<char>, Seq<char>)>, u: u128, state: Seq<char>)
    ensures
        readable_states(v).contains((u, state)) <==> exists|i: int|
            0 <= i < v.len() && ids::uuid_value((#[trigger] v[i]).0) == Some(u) && v[i].1 == state
                && forall|j: int|
                i < j < v.len() ==> ids::uuid_value((#[trigger] v[j]).0) != Some(u),
    decreases v.len(),
{
    let e = (u, state);
    if v.len() > 0 {
        let rest = v.drop_last();
        let n = v.len() - 1;
        law_kept_states_are_read(rest, u, state);
        let a = readable_states(rest);
        let b = readable_states(v);
        assert(v[n] == v.last());
        match ids::uuid_value(v.last().0) {
            Some(w) => {
                lemma_without_state_keeps(a, w, e);
                let c = without_state(a, w);
                assert(b == c.push((w, v.last().1)));
                assert(b.contains(e) <==> c.contains(e) || e == (w, v.last().1)) by {
                    if c.contains(e) {
                        let i = choose|i: int| 0 <= i < c.len() && c[i] == e;
                        assert(b[i] == e);
                    }
                    if e == (w, v.last().1) {
                        assert(b[b.len() - 1] == e);
                    }
                    if b.contains(e) && e != (w, v.last().1) {
                        let i = choose|i: int| 0 <= i < b.len() && b[i] == e;
                        assert(c[i] == e);
                    }
                }
            },
            None => {},
        }
        if b.contains(e) {
            if ids::uuid_value(v.last().0) == Some(u) {
                assert(v[n].1 == state);
            } else {
                let i = choose|i: int|
                    0 <= i < rest.len() && ids::uuid_value((#[trigger] rest[i]).0) == Some(u)
                        && rest[i].1 == state && forall|j: int|
                        i < j < rest.len() ==> ids::uuid_value((#[trigger] rest[j]).0) != Some(u);
                assert(v[i] == rest[i]);
                assert forall|j: int| i < j < v.len() implies ids::uuid_value(
                    (#[trigger] v[j]).0,
                ) != Some(u) by {
                    if j < n {
                        assert(v[j] == rest[j]);
                    }
                }
            }
        }
        if exists|i: int|
            0 <= i < v.len() && ids::uuid_value((#[trigger] v[i]).0) == Some(u) && v[i].1 == state
                && forall|j: int|
                i < j < v.len() ==> ids::uuid_value((#[trigger] v[j]).0) != Some(u) {
            let i = choose|i: int|
                0 <= i < v.len() && ids::uuid_value((#[trigger] v[i]).0) == Some(u) && v[i].1
                    == state && forall|j: int|
                    i < j < v.len() ==> ids::uuid_value((#[trigger] v[j]).0) != Some(u);
            if i < n {
                assert(rest[i] == v[i]);
                assert(ids::uuid_value(v[n].0) != Some(u));
                assert forall|j: int| i < j < rest.len() implies ids::uuid_value(
                    (#[trigger] rest[j]).0,
                ) != Some(u) by {
                    assert(v[j] == rest[j]);
                }
            }
        }
    }
}

/// A server whose container runs is taken over; else it is started again exactly if it
/// was running or starting.
pub proof fn law_what_is_restored(state: Seq<char>)
    ensures
        restored(true, state) == Restore::Attach,
        restored(false, "running"@) == Restore::Start,
        restored(false, "starting"@) == Restore::Start,
        state != "running"@ && state != "starting"@ ==> restored(false, state) == Restore::Offline,
{
}

} // verus!
