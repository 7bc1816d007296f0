//! Which terminal sessions were opened onto which remote tmux session.

use vstd::prelude::*;
use std::collections::HashMap;
use vstd::std_specs::hash::spec_hash_map_iter;
use vstd::std_specs::iter::IteratorSpec;
use crate::remote_hosts::str_eq;

verus! {

/// The remote tmux session a terminal session is attached to.
#[derive(Debug)]
pub struct RemoteAttachInfo {
    pub local_host_key: String,
    pub session_name: String,
}

pub struct RemoteAttachInfoView {
    pub local_host_key: Seq<char>,
    pub session_name: Seq<char>,
}

impl View for RemoteAttachInfo {
    type V = RemoteAttachInfoView;

    open spec fn view(&self) -> RemoteAttachInfoView {
        RemoteAttachInfoView { local_host_key: self.local_host_key@, session_name: self.session_name@ }
    }
}

impl Clone for RemoteAttachInfo {
    fn clone(&self) -> (r: Self)
        ensures
            r@ == self@,
    {
        RemoteAttachInfo {
            local_host_key: self.local_host_key.clone(),
            session_name: self.session_name.clone(),
        }
    }
}

/// Terminal sessions, by id, and what each is attached to.
pub struct RemoteAttachRegistry {
    by_session: HashMap<u64, RemoteAttachInfo>,
}

impl View for RemoteAttachRegistry {
    type V = Map<u64, RemoteAttachInfoView>;

    closed spec fn view(&self) -> Map<u64, RemoteAttachInfoView> {
        self.by_session@.map_values(|i: RemoteAttachInfo| i@)
    }
}

pub open spec fn attached_to(info: RemoteAttachInfoView, host: Seq<char>, name: Seq<char>) -> bool {
    info.local_host_key == host && info.session_name == name
}

/// `m` without the sessions attached to `name` on `host`.
pub open spec fn forgotten(
    m: Map<u64, RemoteAttachInfoView>,
    host: Seq<char>,
    name: Seq<char>,
) -> Map<u64, RemoteAttachInfoView> {
    m.restrict(m.dom().filter(|id: u64| !attached_to(m[id], host, name)))
}

/// What is recorded for a session is what a lookup finds; it stays there
/// until the tmux session it is attached to is forgotten, and forgetting
/// any other tmux session keeps it.
pub proof fn lemma_record_lookup_forget(
    m: Map<u64, RemoteAttachInfoView>,
    id: u64,
    info: RemoteAttachInfoView,
    host: Seq<char>,
    name: Seq<char>,
)
    ensures
        m.insert(id, info).contains_key(id),
        m.insert(id, info)[id] == info,
        forgotten(m.insert(id, info), host, name).contains_key(id) <==> !attached_to(info, host, name),
        forgotten(m.insert(id, info), host, name).contains_key(id) ==> forgotten(m.insert(id, info), host, name)[id]
            == info,
{
}

/// A change to the registry: [`RemoteAttachRegistry::record`] or
/// [`RemoteAttachRegistry::forget_by_host`].
pub enum RegistryOp {
    Record(u64, RemoteAttachInfoView),
    Forget(Seq<char>, Seq<char>),
}

/// The registry's map after one change, as the functions' contracts state it.
pub open spec fn after_op(m: Map<u64, RemoteAttachInfoView>, op: RegistryOp) -> Map<u64, RemoteAttachInfoView> {
    match op {
        RegistryOp::Record(id, info) => m.insert(id, info),
        RegistryOp::Forget(host, name) => forgotten(m, host, name),
    }
}

/// The registry's map after a history of changes, oldest first.
pub open spec fn after_ops(m: Map<u64, RemoteAttachInfoView>, ops: Seq<RegistryOp>) -> Map<u64, RemoteAttachInfoView>
    decreases ops.len(),
{
    if ops.len() == 0 {
        m
    } else {
        after_op(after_ops(m, ops.drop_last()), ops.last())
    }
}

/// Over any history: once `id` is recorded as attached to `info`, a lookup
/// of `id` finds `info` for as long as `id` is not recorded again and the
/// tmux session of `info` is not forgotten, whatever else is recorded or
/// forgotten meanwhile.
pub proof fn lemma_recorded_stays_found(
    m: Map<u64, RemoteAttachInfoView>,
    ops: Seq<RegistryOp>,
    k: int,
    id: u64,
    info: RemoteAttachInfoView,
)
    requires
        0 <= k < ops.len(),
        ops[k] == RegistryOp::Record(id, info),
        forall|j: int|
            k < j < ops.len() ==> match #[trigger] ops[j] {
                RegistryOp::Record(other, _) => other != id,
                RegistryOp::Forget(host, name) => !attached_to(info, host, name),
            },
    ensures
        after_ops(m, ops).contains_key(id),
        after_ops(m, ops)[id] == info,
    decreases ops.len(),
{
    let init = ops.drop_last();
    if k < ops.len() - 1 {
        assert forall|j: int| k < j < init.len() implies match #[trigger] init[j] {
            RegistryOp::Record(other, _) => other != id,
            RegistryOp::Forget(host, name) => !attached_to(info, host, name),
        } by {
            assert(init[j] == ops[j]);
        }
        assert(init[k] == ops[k]);
        lemma_recorded_stays_found(m, init, k, id, info);
        let last = ops[ops.len() - 1];
        assert(ops.last() == last);
    }
}

impl RemoteAttachRegistry {
    /// An empty registry.
    pub fn new() -> (r: Self)
        ensures
            r@ == Map::<u64, RemoteAttachInfoView>::empty(),
    {
        let r = RemoteAttachRegistry { by_session: HashMap::new() };
        assert(r@ =~= Map::<u64, RemoteAttachInfoView>::empty());
        r
    }

    /// Remembers what `session_id` is attached to, replacing any earlier
    /// record for it.
    pub fn record(&mut self, session_id: u64, info: RemoteAttachInfo)
        ensures
            final(self)@ == old(self)@.insert(session_id, info@),
    {
        broadcast use vstd::std_specs::hash::group_hash_axioms;
        self.by_session.insert(session_id, info);
        assert(self@ =~= old(self)@.insert(session_id, info@));
    }

    /// Forgets every terminal session attached to `session_name` on the host
    /// `local_host_key`.
    pub fn forget_by_host(&mut self, local_host_key: &str, session_name: &str)
        ensures
            forall|id: u64|
                #[trigger] final(self)@.contains_key(id) <==> (old(self)@.contains_key(id) && !attached_to(
                    old(self)@[id],
                    local_host_key@,
                    session_name@,
                )),
            forall|id: u64| #[trigger] final(self)@.contains_key(id) ==> final(self)@[id] == old(self)@[id],
            final(self)@ == forgotten(old(self)@, local_host_key@, session_name@),
    {
        broadcast use vstd::std_specs::hash::group_hash_axioms;
        let ghost m0 = self.by_session@;
        let ghost host = local_host_key@;
        let ghost name = session_name@;
        let mut doomed: Vec<u64> = Vec::new();
        let ghost v = spec_hash_map_iter(&self.by_session).remaining();
        let ghost mut n: int = 0;
        for entry in it: self.by_session.iter()
            invariant
                self.by_session@ == m0,
                host == local_host_key@,
                name == session_name@,
                it.seq() == v,
                n == it.index(),
                forall|j: int|
                    0 <= j < doomed.len() ==> m0.contains_key(#[trigger] doomed@[j]) && attached_to(
                        m0[doomed@[j]]@,
                        host,
                        name,
                    ),
                forall|i: int|
                    0 <= i < it.index() ==> (#[trigger] attached_to((*it.seq()[i].1)@, host, name)
                        ==> doomed@.contains(*it.seq()[i].0)),
                forall|i: int|
                    0 <= i < it.seq().len() ==> m0.contains_key(*(#[trigger] it.seq()[i]).0) && m0[*it.seq()[i].0]
                        == *it.seq()[i].1,
        {
            let (id, info) = entry;
            proof {
                n = n + 1;
                assert(entry == it.seq()[it.index() as int]);
                assert(m0.contains_key(*id) && m0[*id] == *info);
            }
            let same_host = str_eq(info.local_host_key.as_str(), local_host_key);
            let same_name = str_eq(info.session_name.as_str(), session_name);
            let same = same_host && same_name;
            assert(same_host == (info.local_host_key@ == host));
            assert(same_name == (info.session_name@ == name));
            assert(same == attached_to(info@, host, name));
            if same {
                let ghost before = doomed@;
                doomed.push(*id);
                assert forall|i: int|
                    0 <= i < it.index() + 1 && #[trigger] attached_to((*it.seq()[i].1)@, host, name)
                    implies doomed@.contains(*it.seq()[i].0) by {
                    if i < it.index() {
                        let w = choose|w: int| 0 <= w < before.len() && before[w] == *it.seq()[i].0;
                        assert(doomed@[w] == before[w]);
                    }
                    if i == it.index() {
                        assert(doomed@[before.len() as int] == *id);
                    }
                }
                assert forall|q: int|
                    0 <= q < doomed.len() implies m0.contains_key(#[trigger] doomed@[q]) && attached_to(
                    m0[doomed@[q]]@,
                    host,
                    name,
                ) by {
                    if q < before.len() {
                        assert(doomed@[q] == before[q]);
                    }
                }
            } else {
                assert forall|i: int|
                    0 <= i < it.index() + 1 && #[trigger] attached_to((*it.seq()[i].1)@, host, name)
                    implies doomed@.contains(*it.seq()[i].0) by {
                }
            }
        }
        assert forall|k: u64| m0.contains_key(k) && attached_to(m0[k]@, host, name) implies doomed@.contains(k) by {
            assert(v.contains((&k, &m0[k])));
            let i = choose|i: int| 0 <= i < v.len() && v[i] == (&k, &m0[k]);
            assert(attached_to((*v[i].1)@, host, name));
        }
        let mut j: usize = 0;
        while j < doomed.len()
            invariant
                j <= doomed.len(),
                forall|k: u64|
                    #[trigger] self.by_session@.contains_key(k) <==> (m0.contains_key(k) && !doomed@.take(
                        j as int,
                    ).contains(k)),
                forall|k: u64| #[trigger] self.by_session@.contains_key(k) ==> self.by_session@[k] == m0[k],
            decreases doomed.len() - j,
        {
            let k = doomed[j];
            let ghost before = self.by_session@;
            self.by_session.remove(&k);
            assert(self.by_session@ == before.remove(k));
            assert forall|x: u64| #[trigger] self.by_session@.contains_key(x) <==> (m0.contains_key(x) && !doomed@.take(
                j + 1,
            ).contains(x)) by {
                let t0 = doomed@.take(j as int);
                let t1 = doomed@.take(j + 1);
                if t0.contains(x) {
                    let w = choose|w: int| 0 <= w < t0.len() && t0[w] == x;
                    assert(t1[w] == x);
                }
                if t1.contains(x) && x != k {
                    let w = choose|w: int| 0 <= w < t1.len() && t1[w] == x;
                    assert(w < j);
                    assert(t0[w] == x);
                }
                if x == k {
                    assert(t1[j as int] == x);
                }
            }
            j += 1;
        }
        assert(doomed@.take(doomed.len() as int) =~= doomed@);
        assert forall|k: u64| doomed@.contains(k) implies m0.contains_key(k) && attached_to(m0[k]@, host, name) by {
            let w = choose|w: int| 0 <= w < doomed.len() && doomed@[w] == k;
        }
        assert(self@ =~= forgotten(old(self)@, host, name));
    }

    /// What `session_id` is attached to.
    pub fn lookup(&self, session_id: u64) -> (r: Option<&RemoteAttachInfo>)
        ensures
            match r {
                Some(info) => self@.contains_key(session_id) && self@[session_id] == info@,
                None => !self@.contains_key(session_id),
            },
    {
        broadcast use vstd::std_specs::hash::group_hash_axioms;
        self.by_session.get(&session_id)
    }
}

} // verus!
