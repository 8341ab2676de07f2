//! The registry of running tunnels, keyed by their id, and of the one
//! gateway a front-end may run. Starting inserts, stopping removes; the
//! handles are the caller's (task handles, channels).
use vstd::prelude::*;

verus! {

/// Live client tunnels by id, and at most one gateway.
pub struct AppState<T, G> {
    tunnels: Vec<(String, T)>,
    server_handle: Option<G>,
}

impl<T, G> AppState<T, G> {
    /// Ids are unique.
    pub closed spec fn wf(&self) -> bool {
        forall|i: int, j: int| 0 <= i < j < self.tunnels@.len() ==> #[trigger] self.tunnels@[i].0@ != #[trigger] self.tunnels@[j].0@
    }

    /// A tunnel with this id is registered.
    pub closed spec fn has(&self, id: Seq<char>) -> bool {
        exists|i: int| 0 <= i < self.tunnels@.len() && #[trigger] self.tunnels@[i].0@ == id
    }

    /// The handle registered under `id`.
    pub closed spec fn tunnel_handle(&self, id: Seq<char>) -> T {
        self.tunnels@[choose|i: int| 0 <= i < self.tunnels@.len() && #[trigger] self.tunnels@[i].0@ == id].1
    }

    pub closed spec fn server(&self) -> Option<G> {
        self.server_handle
    }

    pub fn new() -> (r: AppState<T, G>)
        ensures
            r.wf(),
            forall|id: Seq<char>| !#[trigger] r.has(id),
            r.server() is None,
    {
        AppState { tunnels: Vec::new(), server_handle: None }
    }

    fn find(&self, id: &String) -> (r: Option<usize>)
        ensures
            r matches Some(i) ==> i < self.tunnels@.len() && self.tunnels@[i as int].0@ == id@,
            r is None ==> !self.has(id@),
    {
        let mut i: usize = 0;
        while i < self.tunnels.len()
            invariant
                i <= self.tunnels@.len(),
                forall|j: int| 0 <= j < i ==> #[trigger] self.tunnels@[j].0@ != id@,
            decreases self.tunnels@.len() - i,
        {
            if self.tunnels[i].0 == *id {
                return Some(i);
            }
            i = i + 1;
        }
        None
    }

    /// Whether a tunnel with this id runs.
    pub fn is_mapping_running(&self, id: &String) -> (r: bool)
        requires
            self.wf(),
        ensures
            r == self.has(id@),
    {
        self.find(id).is_some()
    }

    /// The handle of the tunnel `id`, if it runs.
    pub fn get_tunnel(&self, id: &String) -> (r: Option<&T>)
        requires
            self.wf(),
        ensures
            r is Some <==> self.has(id@),
            r matches Some(h) ==> *h == self.tunnel_handle(id@),
    {
        match self.find(id) {
            Some(i) => {
                proof {
                    let k = choose|k: int| 0 <= k < self.tunnels@.len() && #[trigger] self.tunnels@[k].0@ == id@;
                    assert(k == i);
                }
                Some(&self.tunnels[i].1)
            },
            None => None,
        }
    }

    /// Stops tracking the tunnel `id`; its handle comes back for the caller
    /// to cancel.
    pub fn remove_tunnel(&mut self, id: &String) -> (r: Option<T>)
        requires
            old(self).wf(),
        ensures
            final(self).wf(),
            !final(self).has(id@),
            r is Some <==> old(self).has(id@),
            r matches Some(h) ==> h == old(self).tunnel_handle(id@),
            forall|k: Seq<char>| k != id@ ==> (#[trigger] final(self).has(k) == old(self).has(k)
                && (old(self).has(k) ==> final(self).tunnel_handle(k) == old(self).tunnel_handle(k))),
            final(self).server() == old(self).server(),
    {
        match self.find(id) {
            None => None,
            Some(i) => {
                let ghost before = self.tunnels@;
                proof {
                    let k = choose|k: int| 0 <= k < before.len() && #[trigger] before[k].0@ == id@;
                    assert(k == i);
                }
                let (_, h) = self.tunnels.remove(i);
                proof {
                    let after = self.tunnels@;
                    assert forall|a: int| 0 <= a < after.len() implies #[trigger] after[a] == before[if a < i { a } else { a + 1 }] by {}
                    assert forall|a: int, b: int| 0 <= a < b < after.len() implies #[trigger] after[a].0@ != #[trigger] after[b].0@ by {
                        let (x, y) = (if a < i { a } else { a + 1 }, if b < i { b } else { b + 1 });
                        assert(after[a] == before[x] && after[b] == before[y]);
                    }
                    assert(!self.has(id@)) by {
                        if self.has(id@) {
                            let a = choose|a: int| 0 <= a < after.len() && #[trigger] after[a].0@ == id@;
                            let x = if a < i { a } else { a + 1 };
                            assert(after[a] == before[x]);
                        }
                    }
                    assert forall|k: Seq<char>| k != id@ implies (#[trigger] self.has(k) == old(self).has(k)
                        && (old(self).has(k) ==> self.tunnel_handle(k) == old(self).tunnel_handle(k))) by {
                        if old(self).has(k) {
                            let x = choose|x: int| 0 <= x < before.len() && #[trigger] before[x].0@ == k;
                            let a = if x < i { x } else { x - 1 };
                            assert(x != i);
                            assert(after[a] == before[x]);
                            let a2 = choose|a2: int| 0 <= a2 < after.len() && #[trigger] after[a2].0@ == k;
                            let x2 = if a2 < i { a2 } else { a2 + 1 };
                            assert(after[a2] == before[x2]);
                        }
                        if self.has(k) {
                            let a = choose|a: int| 0 <= a < after.len() && #[trigger] after[a].0@ == k;
                            let x = if a < i { a } else { a + 1 };
                            assert(after[a] == before[x]);
                        }
                    }
                }
                Some(h)
            },
        }
    }

    /// Registers the tunnel `id`; a tunnel already under that id is replaced
    /// and its handle comes back for the caller to cancel.
    pub fn insert_tunnel(&mut self, id: String, handle: T) -> (r: Option<T>)
        requires
            old(self).wf(),
        ensures
            final(self).wf(),
            final(self).has(id@),
            final(self).tunnel_handle(id@) == handle,
            r is Some <==> old(self).has(id@),
            r matches Some(h) ==> h == old(self).tunnel_handle(id@),
            forall|k: Seq<char>| k != id@ ==> (#[trigger] final(self).has(k) == old(self).has(k)
                && (old(self).has(k) ==> final(self).tunnel_handle(k) == old(self).tunnel_handle(k))),
            final(self).server() == old(self).server(),
    {
        let r = self.remove_tunnel(&id);
        let ghost st = *self;
        let ghost mid = self.tunnels@;
        let ghost key = id@;
        self.tunnels.push((id, handle));
        proof {
            let after = self.tunnels@;
            let n = mid.len() as int;
            assert(after[n].0@ == key);
            assert forall|a: int, b: int| 0 <= a < b < after.len() implies #[trigger] after[a].0@ != #[trigger] after[b].0@ by {
                if b == n {
                    assert(after[a] == mid[a]);
                    if mid[a].0@ == key {
                        assert(exists|x: int| 0 <= x < mid.len() && #[trigger] mid[x].0@ == key);
                    }
                } else {
                    assert(after[a] == mid[a] && after[b] == mid[b]);
                }
            }
            assert(self.has(key));
            let c = choose|c: int| 0 <= c < after.len() && #[trigger] after[c].0@ == key;
            if c != n {
                assert(after[c] == mid[c]);
                assert(exists|x: int| 0 <= x < mid.len() && #[trigger] mid[x].0@ == key);
            }
            assert forall|k: Seq<char>| k != key implies (#[trigger] self.has(k) == old(self).has(k)
                && (old(self).has(k) ==> self.tunnel_handle(k) == old(self).tunnel_handle(k))) by {
                if self.has(k) {
                    let a = choose|a: int| 0 <= a < after.len() && #[trigger] after[a].0@ == k;
                    assert(a != n);
                    assert(after[a] == mid[a]);
                    assert(exists|x: int| 0 <= x < mid.len() && #[trigger] mid[x].0@ == k);
                }
                if st.has(k) {
                    let x = choose|x: int| 0 <= x < mid.len() && #[trigger] mid[x].0@ == k;
                    assert(after[x] == mid[x]);
                    let a = choose|a: int| 0 <= a < after.len() && #[trigger] after[a].0@ == k;
                    assert(a != n);
                    assert(after[a] == mid[a]);
                    if x < a {
                        assert(mid[x].0@ != mid[a].0@);
                    } else if a < x {
                        assert(mid[a].0@ != mid[x].0@);
                    }
                    assert(self.tunnel_handle(k) == st.tunnel_handle(k));
                }
            }
        }
        r
    }

    /// Whether a gateway runs.
    pub fn is_server_running(&self) -> (r: bool)
        ensures
            r == self.server() is Some,
    {
        self.server_handle.is_some()
    }

    /// Registers the gateway; refused, handing `handle` back, where one
    /// already runs.
    pub fn start_server(&mut self, handle: G) -> (r: Result<(), G>)
        ensures
            old(self).server() is Some ==> r == Err::<(), G>(handle) && final(self).server() == old(self).server(),
            old(self).server() is None ==> r is Ok && final(self).server() == Some(handle),
            final(self).wf() == old(self).wf(),
            forall|k: Seq<char>| #[trigger] final(self).has(k) == old(self).has(k) && final(self).tunnel_handle(k) == old(self).tunnel_handle(k),
    {
        if self.server_handle.is_some() {
            return Err(handle);
        }
        self.server_handle = Some(handle);
        assert(self.tunnels@ == old(self).tunnels@);
        Ok(())
    }

    /// Stops tracking the gateway; its handle comes back for the caller to
    /// cancel.
    pub fn stop_server(&mut self) -> (r: Option<G>)
        ensures
            r == old(self).server(),
            final(self).server() is None,
            final(self).wf() == old(self).wf(),
            forall|k: Seq<char>| #[trigger] final(self).has(k) == old(self).has(k) && final(self).tunnel_handle(k) == old(self).tunnel_handle(k),
    {
        let r = self.server_handle.take();
        assert(self.tunnels@ == old(self).tunnels@);
        r
    }
}

} // verus!
