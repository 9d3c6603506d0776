use vstd::prelude::*;

use crate::interface::{AddObjectError, DynInterface, ANONYMOUS_NAME};

verus! {

/// One protocol object of a client: its id, the interface it speaks, and
/// its lifecycle marks. Whether a handler is installed and whether the
/// destructor has run are plain marks here; the handler itself lives with
/// the embedder.
pub struct Object {
    pub id: u32,
    pub interface: DynInterface,
    pub has_dispatcher: bool,
    pub destructor_done: bool,
    pub destroy: bool,
}

impl Object {
    pub fn new(id: u32, interface: DynInterface) -> (r: Self)
        ensures
            r.id == id,
            r.interface@ == interface@,
            r.has_dispatcher,
            !r.destructor_done,
            !r.destroy,
    {
        Object { id, interface, has_dispatcher: true, destructor_done: false, destroy: false }
    }

    /// An object whose interface is not fixed yet: no dispatcher, the
    /// anonymous placeholder interface.
    pub fn new_anonymous(id: u32) -> (r: Self)
        ensures
            r.id == id,
            r.interface@.name == ANONYMOUS_NAME@,
            !r.has_dispatcher,
            !r.destructor_done,
            !r.destroy,
    {
        Object {
            id,
            interface: DynInterface::new_anonymous(),
            has_dispatcher: false,
            destructor_done: false,
            destroy: false,
        }
    }
}

/// First position of the object with the given id.
pub open spec fn find_idx(s: Seq<Object>, id: u32) -> Option<int>
    decreases s.len(),
{
    if s.len() == 0 {
        None
    } else if s[0].id == id {
        Some(0)
    } else {
        match find_idx(s.drop_first(), id) {
            Some(i) => Some(i + 1),
            None => None,
        }
    }
}

/// First position of an object marked destroy-pending.
pub open spec fn find_destroy_idx(s: Seq<Object>) -> Option<int>
    decreases s.len(),
{
    if s.len() == 0 {
        None
    } else if s[0].destroy {
        Some(0)
    } else {
        match find_destroy_idx(s.drop_first()) {
            Some(i) => Some(i + 1),
            None => None,
        }
    }
}

/// The table after the object with the given id is marked destroy-pending.
pub open spec fn spec_set_destroy(s: Seq<Object>, id: u32) -> Seq<Object> {
    Seq::new(
        s.len(),
        |i: int|
            if s[i].id == id {
                Object { destroy: true, ..s[i] }
            } else {
                s[i]
            },
    )
}

/// Marking an object destroy-pending twice is the same as marking it once:
/// the second call changes nothing.
pub proof fn lemma_destroy_idempotent(s: Seq<Object>, id: u32)
    ensures
        spec_set_destroy(spec_set_destroy(s, id), id) == spec_set_destroy(s, id),
{
    assert(spec_set_destroy(spec_set_destroy(s, id), id) =~= spec_set_destroy(s, id));
}

/// No two live objects share an id.
pub open spec fn ids_unique(s: Seq<Object>) -> bool {
    forall|i: int, j: int|
        0 <= i < j < s.len() ==> (#[trigger] s[i]).id != (#[trigger] s[j]).id
}

/// A client's table of live objects, together with the ids it has retired.
/// An id can be added only while it was never seen before: neither live nor
/// retired, so an id is never reused within one client.
pub struct ObjectMap {
    pub objects: Vec<Object>,
    pub retired: Vec<u32>,
}

/// Every operation of the table keeps the ids unique; this is how ids are
/// never doubled up within one client.
pub open spec fn object_map_wf(m: ObjectMap) -> bool {
    ids_unique(m.objects@)
}

/// The table has never seen this id: no live object bears it, and it was
/// never retired.
pub open spec fn id_fresh(m: ObjectMap, id: u32) -> bool {
    find_idx(m.objects@, id) is None && !m.retired@.contains(id)
}

impl ObjectMap {
    pub fn new() -> (r: Self)
        ensures
            r.objects@.len() == 0,
            r.retired@.len() == 0,
            object_map_wf(r),
    {
        ObjectMap { objects: Vec::new(), retired: Vec::new() }
    }

    /// Add an object; an id the table has ever seen — live or retired — is
    /// refused, so no id is ever reused.
    pub fn add(&mut self, object: Object) -> (r: Result<(), AddObjectError>)
        requires
            object_map_wf(*old(self)),
        ensures
            object_map_wf(*final(self)),
            final(self).retired@ == old(self).retired@,
            match r {
                Ok(_) => {
                    &&& id_fresh(*old(self), object.id)
                    &&& final(self).objects@ == old(self).objects@.push(object)
                },
                Err(e) => {
                    &&& e == AddObjectError::IdAlreadyTaken
                    &&& !id_fresh(*old(self), object.id)
                    &&& final(self).objects@ == old(self).objects@
                },
            },
    {
        if self.find_pos(object.id).is_some() {
            return Err(AddObjectError::IdAlreadyTaken);
        }
        if self.retired_contains(object.id) {
            return Err(AddObjectError::IdAlreadyTaken);
        }
        let ghost prev = self.objects@;
        let ghost og = object;
        self.objects.push(object);
        proof {
            assert forall|i: int, j: int|
                0 <= i < j < self.objects@.len() implies (#[trigger] self.objects@[i]).id
                != (#[trigger] self.objects@[j]).id by {
                if j < prev.len() {
                    assert(self.objects@[i] == prev[i] && self.objects@[j] == prev[j]);
                } else {
                    assert(self.objects@[j] == og);
                    assert(self.objects@[i] == prev[i]);
                    lemma_find_idx_none(prev, og.id, i);
                }
            }
        }
        Ok(())
    }

    /// Position of the object with the given id.
    pub fn find_pos(&self, id: u32) -> (r: Option<usize>)
        ensures
            match r {
                Some(i) => find_idx(self.objects@, id) == Some(i as int) && i
                    < self.objects@.len() && self.objects@[i as int].id == id,
                None => find_idx(self.objects@, id) is None,
            },
    {
        let n = self.objects.len();
        let mut i: usize = 0;
        while i < n
            invariant
                i <= n,
                n == self.objects@.len(),
                forall|k: int| 0 <= k < i ==> (#[trigger] self.objects@[k]).id != id,
            decreases n - i,
        {
            if self.objects[i].id == id {
                proof {
                    lemma_find_idx_at(self.objects@, id, i as int);
                }
                return Some(i);
            }
            i = i + 1;
        }
        proof {
            lemma_find_idx_no_match(self.objects@, id);
        }
        None
    }

    /// Was this id retired before?
    pub fn retired_contains(&self, id: u32) -> (r: bool)
        ensures
            r == self.retired@.contains(id),
    {
        let n = self.retired.len();
        let mut i: usize = 0;
        while i < n
            invariant
                i <= n,
                n == self.retired@.len(),
                forall|k: int| 0 <= k < i ==> self.retired@[k] != id,
            decreases n - i,
        {
            if self.retired[i] == id {
                return true;
            }
            i = i + 1;
        }
        proof {
            assert(!self.retired@.contains(id));
        }
        false
    }

    /// Mark the object with the given id destroy-pending; absent ids are
    /// left alone. Marking twice is marking once.
    pub fn set_destroy(&mut self, id: u32) -> (r: bool)
        requires
            object_map_wf(*old(self)),
        ensures
            object_map_wf(*final(self)),
            final(self).retired@ == old(self).retired@,
            final(self).objects@ == spec_set_destroy(old(self).objects@, id),
            r == (find_idx(old(self).objects@, id) is Some),
    {
        let ghost prev = self.objects@;
        match self.find_pos(id) {
            None => {
                proof {
                    assert forall|k: int|
                        0 <= k < prev.len() implies (#[trigger] prev[k]).id != id by {
                        lemma_find_idx_none(prev, id, k);
                    }
                    assert(self.objects@ =~= spec_set_destroy(prev, id));
                }
                false
            },
            Some(i) => {
                let mut o = self.objects.remove(i);
                o.destroy = true;
                let ghost og = o;
                self.objects.insert(i, o);
                proof {
                    assert(og == Object { destroy: true, ..prev[i as int] });
                    assert forall|k: int|
                        0 <= k < prev.len() implies self.objects@[k] == spec_set_destroy(
                        prev,
                        id,
                    )[k] by {
                        if k != i {
                            assert(self.objects@[k] == prev[k]);
                            lemma_find_idx_unique(prev, id, i as int, k);
                        } else {
                            assert(self.objects@[k] == og);
                        }
                    }
                    assert(self.objects@ =~= spec_set_destroy(prev, id));
                }
                true
            },
        }
    }

    /// Take the object with the given id out of the table.
    pub fn remove(&mut self, id: u32) -> (r: Option<Object>)
        requires
            object_map_wf(*old(self)),
        ensures
            object_map_wf(*final(self)),
            match r {
                Some(o) => {
                    &&& find_idx(old(self).objects@, id) matches Some(k)
                    &&& 0 <= k < old(self).objects@.len()
                    &&& o == old(self).objects@[k]
                    &&& o.id == id
                    &&& final(self).objects@ == old(self).objects@.remove(k)
                    &&& find_idx(final(self).objects@, id) is None
                    &&& final(self).retired@ == old(self).retired@.push(id)
                    &&& !id_fresh(*final(self), id)
                },
                None => {
                    &&& find_idx(old(self).objects@, id) is None
                    &&& final(self).objects@ == old(self).objects@
                    &&& final(self).retired@ == old(self).retired@
                },
            },
    {
        let ghost prev = self.objects@;
        match self.find_pos(id) {
            None => None,
            Some(i) => {
                let ghost prevr = self.retired@;
                self.retired.push(id);
                let o = self.objects.remove(i);
                proof {
                    assert(self.retired@ == prevr.push(id));
                    assert(self.retired@.last() == id);
                    assert(self.retired@.contains(id));
                    lemma_remove_keeps_unique(prev, i as int);
                    assert forall|k: int|
                        0 <= k < self.objects@.len() implies (#[trigger] self.objects@[k]).id
                        != id by {
                        if k < i {
                            lemma_find_idx_unique(prev, id, i as int, k);
                        } else {
                            lemma_find_idx_unique(prev, id, i as int, k + 1);
                        }
                    }
                    lemma_find_idx_no_match(self.objects@, id);
                }
                Some(o)
            },
        }
    }

    /// Take any one object out, used when a client goes away.
    pub fn remove_any(&mut self) -> (r: Option<Object>)
        requires
            object_map_wf(*old(self)),
        ensures
            object_map_wf(*final(self)),
            match r {
                Some(o) => {
                    &&& old(self).objects@.len() > 0
                    &&& o == old(self).objects@.last()
                    &&& final(self).objects@ == old(self).objects@.drop_last()
                    &&& final(self).retired@ == old(self).retired@.push(o.id)
                },
                None => {
                    &&& old(self).objects@.len() == 0
                    &&& final(self).objects@ == old(self).objects@
                    &&& final(self).retired@ == old(self).retired@
                },
            },
    {
        if self.objects.len() == 0 {
            return None;
        }
        let ghost prev = self.objects@;
        let o = self.objects.pop().unwrap();
        self.retired.push(o.id);
        proof {
            assert(self.objects@ =~= prev.drop_last());
        }
        Some(o)
    }

    /// The id of the first destroy-pending object, if any, without taking
    /// it out.
    pub fn peek_destroy(&self) -> (r: Option<u32>)
        ensures
            match r {
                Some(id) => {
                    &&& find_destroy_idx(self.objects@) matches Some(k)
                    &&& 0 <= k < self.objects@.len()
                    &&& self.objects@[k].id == id
                    &&& self.objects@[k].destroy
                    &&& find_idx(self.objects@, id) is Some
                },
                None => find_destroy_idx(self.objects@) is None,
            },
    {
        let n = self.objects.len();
        let mut i: usize = 0;
        while i < n
            invariant
                i <= n,
                n == self.objects@.len(),
                forall|k: int| 0 <= k < i ==> !(#[trigger] self.objects@[k]).destroy,
            decreases n - i,
        {
            if self.objects[i].destroy {
                proof {
                    lemma_find_destroy_at(self.objects@, i as int);
                    if find_idx(self.objects@, self.objects@[i as int].id) is None {
                        lemma_find_idx_none(
                            self.objects@,
                            self.objects@[i as int].id,
                            i as int,
                        );
                    }
                }
                return Some(self.objects[i].id);
            }
            i = i + 1;
        }
        proof {
            lemma_find_destroy_none(self.objects@);
        }
        None
    }

    /// Take the first destroy-pending object out of the table, so that its
    /// destructor runs exactly once before its slot is freed.
    pub fn next_pending_destroy(&mut self) -> (r: Option<Object>)
        requires
            object_map_wf(*old(self)),
        ensures
            object_map_wf(*final(self)),
            match r {
                Some(o) => {
                    &&& find_destroy_idx(old(self).objects@) matches Some(k)
                    &&& 0 <= k < old(self).objects@.len()
                    &&& o == old(self).objects@[k]
                    &&& o.destroy
                    &&& final(self).objects@ == old(self).objects@.remove(k)
                    &&& final(self).retired@ == old(self).retired@.push(o.id)
                },
                None => {
                    &&& find_destroy_idx(old(self).objects@) is None
                    &&& forall|k: int|
                        0 <= k < old(self).objects@.len() ==> !(#[trigger] old(
                            self,
                        ).objects@[k]).destroy
                    &&& final(self).objects@ == old(self).objects@
                    &&& final(self).retired@ == old(self).retired@
                },
            },
    {
        let ghost prev = self.objects@;
        let n = self.objects.len();
        let mut i: usize = 0;
        while i < n
            invariant
                i <= n,
                n == self.objects@.len(),
                prev == self.objects@,
                self.objects@ == old(self).objects@,
                self.retired@ == old(self).retired@,
                object_map_wf(*self),
                forall|k: int| 0 <= k < i ==> !(#[trigger] self.objects@[k]).destroy,
            decreases n - i,
        {
            if self.objects[i].destroy {
                proof {
                    lemma_find_destroy_at(prev, i as int);
                }
                let rid = self.objects[i].id;
                self.retired.push(rid);
                let o = self.objects.remove(i);
                proof {
                    lemma_remove_keeps_unique(prev, i as int);
                }
                return Some(o);
            }
            i = i + 1;
        }
        proof {
            lemma_find_destroy_none(prev);
        }
        None
    }
}

/// An id at the end of the table is found.
pub proof fn lemma_find_idx_last(s: Seq<Object>, id: u32)
    requires
        s.len() > 0,
        s.last().id == id,
    ensures
        find_idx(s, id) is Some,
    decreases s.len(),
{
    if s.len() > 1 && s[0].id != id {
        lemma_find_idx_last(s.drop_first(), id);
    }
}

/// Ids are never doubled up within one client: in every table the
/// operations produce, two distinct live objects bear different ids; and
/// `add` refuses every id the table has ever seen, so a retired id never
/// comes back.
pub proof fn lemma_ids_never_reused(m: ObjectMap, i: int, j: int)
    requires
        object_map_wf(m),
        0 <= i < m.objects@.len(),
        0 <= j < m.objects@.len(),
        i != j,
    ensures
        m.objects@[i].id != m.objects@[j].id,
{
    if i < j {
        assert(m.objects@[i].id != m.objects@[j].id);
    } else {
        assert(m.objects@[j].id != m.objects@[i].id);
    }
}

proof fn lemma_find_idx_at(s: Seq<Object>, id: u32, i: int)
    requires
        0 <= i < s.len(),
        s[i].id == id,
        forall|k: int| 0 <= k < i ==> (#[trigger] s[k]).id != id,
    ensures
        find_idx(s, id) == Some(i),
    decreases s.len(),
{
    if i > 0 {
        lemma_find_idx_at(s.drop_first(), id, i - 1);
    }
}

proof fn lemma_find_idx_no_match(s: Seq<Object>, id: u32)
    requires
        forall|k: int| 0 <= k < s.len() ==> (#[trigger] s[k]).id != id,
    ensures
        find_idx(s, id) is None,
    decreases s.len(),
{
    if s.len() > 0 {
        lemma_find_idx_no_match(s.drop_first(), id);
    }
}

/// When no position holds the id, every position differs from it.
pub proof fn lemma_find_idx_none(s: Seq<Object>, id: u32, k: int)
    requires
        find_idx(s, id) is None,
        0 <= k < s.len(),
    ensures
        s[k].id != id,
    decreases s.len(),
{
    if k > 0 {
        lemma_find_idx_none(s.drop_first(), id, k - 1);
    }
}

/// With unique ids, the found position is the only one bearing the id.
pub proof fn lemma_find_idx_unique(s: Seq<Object>, id: u32, i: int, k: int)
    requires
        ids_unique(s),
        0 <= i < s.len(),
        s[i].id == id,
        0 <= k < s.len(),
        k != i,
    ensures
        s[k].id != id,
{
    if k < i {
        assert(s[k].id != s[i].id);
    } else {
        assert(s[i].id != s[k].id);
    }
}

proof fn lemma_remove_keeps_unique(s: Seq<Object>, i: int)
    requires
        ids_unique(s),
        0 <= i < s.len(),
    ensures
        ids_unique(s.remove(i)),
{
    assert forall|a: int, b: int|
        0 <= a < b < s.remove(i).len() implies (#[trigger] s.remove(i)[a]).id != (#[trigger] s.remove(
        i,
    )[b]).id by {
        let a0 = if a < i {
            a
        } else {
            a + 1
        };
        let b0 = if b < i {
            b
        } else {
            b + 1
        };
        assert(s.remove(i)[a] == s[a0]);
        assert(s.remove(i)[b] == s[b0]);
    }
}

proof fn lemma_find_destroy_at(s: Seq<Object>, i: int)
    requires
        0 <= i < s.len(),
        s[i].destroy,
        forall|k: int| 0 <= k < i ==> !(#[trigger] s[k]).destroy,
    ensures
        find_destroy_idx(s) == Some(i),
    decreases s.len(),
{
    if i > 0 {
        lemma_find_destroy_at(s.drop_first(), i - 1);
    }
}

proof fn lemma_find_destroy_none(s: Seq<Object>)
    requires
        forall|k: int| 0 <= k < s.len() ==> !(#[trigger] s[k]).destroy,
    ensures
        find_destroy_idx(s) is None,
    decreases s.len(),
{
    if s.len() > 0 {
        lemma_find_destroy_none(s.drop_first());
    }
}

} // verus!
