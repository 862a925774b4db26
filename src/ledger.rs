//! The ledger: file objects, the submissions they were uploaded for, and the
//! associations between the two.
//!
//! Its well-formedness holds the rules that the relational store enforces:
//! unique object ids, unique association pairs, no association that points at
//! a missing object or submission, and one object at most per filename in a
//! submission.

use vstd::prelude::*;

verus! {

/// Where an upload stands: `Initiated` until every part has arrived.
#[derive(Clone, Copy, Debug, PartialEq, Eq, Structural)]
pub enum UploadState {
    Initiated,
    Completed,
}

/// One uploaded file's lifecycle record. Times are microseconds since the Unix
/// epoch.
#[derive(Debug)]
pub struct FileObject {
    pub id: u128,
    pub created_on: i64,
    pub filename: String,
    pub size_bytes: i64,
    pub state: UploadState,
    pub last_part_received: Option<i64>,
    pub processing_message: Option<String>,
}

impl FileObject {
    pub open spec fn complete(&self) -> bool {
        self.state == UploadState::Completed
    }

    /// The stored flag: whether every part of the upload has arrived.
    pub fn all_parts_received(&self) -> (r: bool)
        ensures
            r == self.complete(),
    {
        match self.state {
            UploadState::Completed => true,
            UploadState::Initiated => false,
        }
    }
}

impl Clone for FileObject {
    fn clone(&self) -> (r: Self)
        ensures
            r == *self,
    {
        FileObject {
            id: self.id,
            created_on: self.created_on,
            filename: self.filename.clone(),
            size_bytes: self.size_bytes,
            state: self.state,
            last_part_received: self.last_part_received,
            processing_message: match &self.processing_message {
                Some(m) => Some(m.clone()),
                None => None,
            },
        }
    }
}

/// The link between a file object and a submission.
#[derive(Clone, Copy, Debug, PartialEq, Eq, Structural)]
pub struct Association {
    pub input_object_id: u128,
    pub submission_id: u128,
}

/// Why a ledger operation refused to act. A refused operation changes nothing.
#[derive(Clone, Copy, Debug, PartialEq, Eq, Structural)]
pub enum LedgerError {
    /// The row the operation targets does not exist.
    NotFound,
    /// A row with this identity exists already.
    Duplicate,
    /// The submission already holds another object with this filename.
    FilenameTaken,
    /// Associations still point at the row.
    StillReferenced,
}

/// The object `o` after a status update: new message and time, and complete
/// if `complete` asks for it; nothing else changes.
pub open spec fn touched(o: FileObject, message: String, at: i64, complete: bool) -> FileObject {
    FileObject {
        processing_message: Some(message),
        last_part_received: Some(at),
        state: if complete {
            UploadState::Completed
        } else {
            o.state
        },
        ..o
    }
}

pub struct Ledger {
    objects: Vec<FileObject>,
    associations: Vec<Association>,
    submissions: Vec<u128>,
}

impl Ledger {
    pub closed spec fn objects(&self) -> Seq<FileObject> {
        self.objects@
    }

    pub closed spec fn associations(&self) -> Seq<Association> {
        self.associations@
    }

    pub closed spec fn submissions(&self) -> Seq<u128> {
        self.submissions@
    }

    pub open spec fn has_object(&self, id: u128) -> bool {
        exists|i: int| 0 <= i < self.objects().len() && #[trigger] self.objects()[i].id == id
    }

    pub open spec fn index_of(&self, id: u128) -> int {
        choose|i: int| 0 <= i < self.objects().len() && #[trigger] self.objects()[i].id == id
    }

    /// The row of object `id`, if there is one.
    pub open spec fn object_of(&self, id: u128) -> Option<FileObject> {
        if self.has_object(id) {
            Some(self.objects()[self.index_of(id)])
        } else {
            None
        }
    }

    pub open spec fn has_submission(&self, s: u128) -> bool {
        self.submissions().contains(s)
    }

    pub open spec fn linked(&self, id: u128, s: u128) -> bool {
        self.associations().contains(Association { input_object_id: id, submission_id: s })
    }

    /// Whether some association points at object `id`.
    pub open spec fn referenced(&self, id: u128) -> bool {
        exists|k: int|
            0 <= k < self.associations().len() && #[trigger] self.associations()[k].input_object_id
                == id
    }

    /// Whether some association points at submission `s`.
    pub open spec fn has_members(&self, s: u128) -> bool {
        exists|k: int|
            0 <= k < self.associations().len() && #[trigger] self.associations()[k].submission_id
                == s
    }

    /// Row `i` is an object of submission `s` named `f`.
    pub open spec fn holds_slot(&self, s: u128, f: Seq<char>, i: int) -> bool {
        0 <= i < self.objects().len() && self.objects()[i].filename@ == f && self.linked(
            self.objects()[i].id,
            s,
        )
    }

    /// The object of submission `s` named `f`, if there is one.
    pub open spec fn slot(&self, s: u128, f: Seq<char>) -> Option<FileObject> {
        if exists|i: int| self.holds_slot(s, f, i) {
            Some(self.objects()[choose|i: int| self.holds_slot(s, f, i)])
        } else {
            None
        }
    }

    pub open spec fn wf(&self) -> bool {
        &&& forall|i: int, j: int|
            0 <= i < self.objects().len() && 0 <= j < self.objects().len() && #[trigger] self.objects()[i].id
                == #[trigger] self.objects()[j].id ==> i == j
        &&& self.associations().no_duplicates()
        &&& self.submissions().no_duplicates()
        &&& forall|k: int|
            0 <= k < self.associations().len() ==> self.has_object(
                #[trigger] self.associations()[k].input_object_id,
            ) && self.has_submission(self.associations()[k].submission_id)
        &&& forall|s: u128, f: Seq<char>, i: int, j: int|
            #[trigger] self.holds_slot(s, f, i) && #[trigger] self.holds_slot(s, f, j) ==> i == j
    }

    /// An empty ledger.
    pub fn new() -> (r: Ledger)
        ensures
            r.wf(),
            r.objects() == Seq::<FileObject>::empty(),
            r.associations() == Seq::<Association>::empty(),
            r.submissions() == Seq::<u128>::empty(),
    {
        Ledger { objects: Vec::new(), associations: Vec::new(), submissions: Vec::new() }
    }

    /// Whether submission `s` exists.
    pub fn contains_submission(&self, s: u128) -> (r: bool)
        ensures
            r == self.has_submission(s),
    {
        let mut i: usize = 0;
        while i < self.submissions.len()
            invariant
                i <= self.submissions@.len(),
                forall|k: int| 0 <= k < i ==> self.submissions@[k] != s,
            decreases self.submissions@.len() - i,
        {
            if self.submissions[i] == s {
                return true;
            }
            i = i + 1;
        }
        false
    }

    /// Whether object `id` is linked to submission `s`.
    pub fn is_linked(&self, id: u128, s: u128) -> (r: bool)
        ensures
            r == self.linked(id, s),
    {
        let target = Association { input_object_id: id, submission_id: s };
        let mut i: usize = 0;
        while i < self.associations.len()
            invariant
                i <= self.associations@.len(),
                target == (Association { input_object_id: id, submission_id: s }),
                forall|k: int| 0 <= k < i ==> self.associations@[k] != target,
            decreases self.associations@.len() - i,
        {
            if self.associations[i] == target {
                assert(self.associations()[i as int] == target);
                assert(self.associations().contains(target));
                return true;
            }
            i = i + 1;
        }
        false
    }

    fn position(&self, id: u128) -> (r: Option<usize>)
        requires
            self.wf(),
        ensures
            r is Some <==> self.has_object(id),
            r matches Some(i) ==> i == self.index_of(id) && i < self.objects().len()
                && self.objects()[i as int].id == id,
    {
        let mut i: usize = 0;
        while i < self.objects.len()
            invariant
                i <= self.objects@.len(),
                self.wf(),
                forall|k: int| 0 <= k < i ==> self.objects@[k].id != id,
            decreases self.objects@.len() - i,
        {
            if self.objects[i].id == id {
                assert(self.objects()[i as int].id == id);
                assert(self.has_object(id));
                let ghost j = self.index_of(id);
                assert(self.objects()[j].id == id);
                return Some(i);
            }
            i = i + 1;
        }
        None
    }

    /// The row of object `id`, if there is one.
    pub fn find_file_object(&self, id: u128) -> (r: Option<FileObject>)
        requires
            self.wf(),
        ensures
            r == self.object_of(id),
    {
        match self.position(id) {
            Some(i) => Some(self.objects[i].clone()),
            None => None,
        }
    }

    /// The objects of submission `s` named `filename`: at most one, as
    /// well-formedness allows no more.
    pub fn find_by_submission_and_filename(&self, s: u128, filename: &String) -> (r: Vec<
        FileObject,
    >)
        requires
            self.wf(),
        ensures
            r@ == match self.slot(s, filename@) {
                Some(o) => seq![o],
                None => Seq::<FileObject>::empty(),
            },
    {
        let mut r: Vec<FileObject> = Vec::new();
        let mut i: usize = 0;
        while i < self.objects.len()
            invariant
                self.wf(),
                i <= self.objects@.len(),
                forall|k: int| 0 <= k < i && self.holds_slot(s, filename@, k) ==> r@ == seq![self.objects()[k]],
                (forall|k: int| 0 <= k < i ==> !self.holds_slot(s, filename@, k)) ==> r@.len() == 0,
            decreases self.objects@.len() - i,
        {
            if self.objects[i].filename == *filename && self.is_linked(self.objects[i].id, s) {
                assert(self.holds_slot(s, filename@, i as int));
                proof {
                    assert forall|k: int| 0 <= k < i implies !self.holds_slot(s, filename@, k) by {
                        if self.holds_slot(s, filename@, k) {
                            assert(k == i);
                        }
                    }
                }
                r.push(self.objects[i].clone());
            }
            i = i + 1;
        }
        proof {
            if exists|k: int| self.holds_slot(s, filename@, k) {
                let k = choose|k: int| self.holds_slot(s, filename@, k);
                assert(r@ == seq![self.objects()[k]]);
            }
        }
        r
    }

    /// Adds submission `s`.
    pub fn add_submission(&mut self, s: u128) -> (r: Result<(), LedgerError>)
        requires
            old(self).wf(),
        ensures
            final(self).wf(),
            old(self).has_submission(s) ==> r == Err::<(), LedgerError>(LedgerError::Duplicate)
                && *final(self) == *old(self),
            !old(self).has_submission(s) ==> r == Ok::<(), LedgerError>(()) && final(self).submissions()
                == old(self).submissions().push(s) && final(self).objects() == old(self).objects()
                && final(self).associations() == old(self).associations(),
    {
        if self.contains_submission(s) {
            return Err(LedgerError::Duplicate);
        }
        self.submissions.push(s);
        proof {
            assert forall|x: u128| old(self).has_submission(x) implies self.has_submission(x) by {
                let k = choose|k: int| 0 <= k < old(self).submissions().len() && old(self).submissions()[k] == x;
                assert(self.submissions()[k] == x);
            }
            assert forall|t: u128, f: Seq<char>, i: int| #[trigger] self.holds_slot(t, f, i) == old(self).holds_slot(t, f, i) by {}
        }
        Ok(())
    }

    /// Inserts a new object row; its id must not be in use.
    pub fn insert_file_object(&mut self, o: FileObject) -> (r: Result<(), LedgerError>)
        requires
            old(self).wf(),
        ensures
            final(self).wf(),
            old(self).has_object(o.id) ==> r == Err::<(), LedgerError>(LedgerError::Duplicate)
                && *final(self) == *old(self),
            !old(self).has_object(o.id) ==> r == Ok::<(), LedgerError>(()) && final(self).objects()
                == old(self).objects().push(o) && final(self).associations()
                == old(self).associations() && final(self).submissions()
                == old(self).submissions(),
    {
        if self.position(o.id).is_some() {
            return Err(LedgerError::Duplicate);
        }
        let ghost id = o.id;
        self.objects.push(o);
        proof {
            let n = old(self).objects().len();
            assert forall|x: u128| old(self).has_object(x) implies self.has_object(x) by {
                let k = choose|k: int| 0 <= k < n && #[trigger] old(self).objects()[k].id == x;
                assert(self.objects()[k].id == x);
            }
            assert forall|t: u128| !#[trigger] self.linked(id, t) by {
                if self.linked(id, t) {
                    let k = choose|k: int| 0 <= k < self.associations().len() && self.associations()[k] == Association { input_object_id: id, submission_id: t };
                    assert(old(self).has_object(self.associations()[k].input_object_id));
                }
            }
            assert forall|t: u128, f: Seq<char>, i: int| #[trigger] self.holds_slot(t, f, i) implies old(self).holds_slot(t, f, i) by {
                if i == n {
                    assert(self.objects()[i].id == id);
                }
            }
        }
        Ok(())
    }

    /// Sets the status message and time of object `id`, and marks it complete
    /// if `complete` asks for it. Filename, size and creation time never change.
    pub fn update_file_object(&mut self, id: u128, message: String, at: i64, complete: bool) -> (r:
        Result<(), LedgerError>)
        requires
            old(self).wf(),
        ensures
            final(self).wf(),
            !old(self).has_object(id) ==> r == Err::<(), LedgerError>(LedgerError::NotFound)
                && *final(self) == *old(self),
            old(self).has_object(id) ==> r == Ok::<(), LedgerError>(()) && final(self).objects()
                == old(self).objects().update(
                old(self).index_of(id),
                touched(old(self).objects()[old(self).index_of(id)], message, at, complete),
            ) && final(self).associations() == old(self).associations()
                && final(self).submissions() == old(self).submissions(),
    {
        match self.position(id) {
            None => Err(LedgerError::NotFound),
            Some(i) => {
                let ghost before = self.objects[i as int];
                let mut o = self.objects[i].clone();
                o.processing_message = Some(message);
                o.last_part_received = Some(at);
                if complete {
                    o.state = UploadState::Completed;
                }
                assert(o == touched(before, message, at, complete));
                self.objects.set(i, o);
                proof {
                    let n = old(self).objects().len();
                    assert forall|k: int| 0 <= k < n implies #[trigger] self.objects()[k].id == old(self).objects()[k].id
                        && self.objects()[k].filename == old(self).objects()[k].filename by {}
                    assert forall|x: u128| old(self).has_object(x) implies self.has_object(x) by {
                        let k = choose|k: int| 0 <= k < n && #[trigger] old(self).objects()[k].id == x;
                        assert(self.objects()[k].id == x);
                    }
                    assert forall|t: u128, f: Seq<char>, j: int| #[trigger] self.holds_slot(t, f, j) == old(self).holds_slot(t, f, j) by {}
                }
                Ok(())
            },
        }
    }
}


/// Rows of object `id` stay out.
pub open spec fn other_object(id: u128) -> spec_fn(Association) -> bool {
    |a: Association| a.input_object_id != id
}

proof fn lemma_take_filter_push<A>(s: Seq<A>, p: spec_fn(A) -> bool, i: int)
    requires
        0 <= i < s.len(),
    ensures
        s.take(i + 1).filter(p) == if p(s[i]) {
            s.take(i).filter(p).push(s[i])
        } else {
            s.take(i).filter(p)
        },
{
    assert(s.take(i + 1) == s.take(i).push(s[i]));
    s.take(i).lemma_filter_push(s[i], p);
}

proof fn lemma_filter_in<A>(s: Seq<A>, p: spec_fn(A) -> bool, i: int)
    requires
        0 <= i < s.filter(p).len(),
    ensures
        s.contains(s.filter(p)[i]),
        p(s.filter(p)[i]),
{
    broadcast use vstd::seq_lib::group_filter_ensures;

    assert(s.filter(p).contains(s.filter(p)[i]));
    s.lemma_filter_contains_rev(p, s.filter(p)[i]);
}

proof fn lemma_filter_keys_distinct<A, K>(s: Seq<A>, p: spec_fn(A) -> bool, key: spec_fn(A) -> K)
    requires
        forall|i: int, j: int|
            0 <= i < s.len() && 0 <= j < s.len() && #[trigger] key(s[i]) == #[trigger] key(s[j])
                ==> i == j,
    ensures
        forall|i: int, j: int|
            0 <= i < s.filter(p).len() && 0 <= j < s.filter(p).len() && #[trigger] key(
                s.filter(p)[i],
            ) == #[trigger] key(s.filter(p)[j]) ==> i == j,
    decreases s.len(),
{
    reveal(Seq::filter);
    if s.len() > 0 {
        let d = s.drop_last();
        assert forall|i: int, j: int|
            0 <= i < d.len() && 0 <= j < d.len() && #[trigger] key(d[i]) == #[trigger] key(
                d[j],
            ) implies i == j by {
            assert(d[i] == s[i] && d[j] == s[j]);
        }
        lemma_filter_keys_distinct(d, p, key);
        if p(s.last()) {
            let f = d.filter(p);
            assert forall|i: int| 0 <= i < f.len() implies key(f[i]) != key(s.last()) by {
                lemma_filter_in(d, p, i);
                let k = choose|k: int| 0 <= k < d.len() && d[k] == f[i];
                assert(s[k] == d[k]);
            }
        }
    }
}

proof fn lemma_no_dup_filter<A>(s: Seq<A>, p: spec_fn(A) -> bool)
    requires
        s.no_duplicates(),
    ensures
        s.filter(p).no_duplicates(),
{
    let key = |a: A| a;
    lemma_filter_keys_distinct(s, p, key);
    assert forall|i: int, j: int|
        0 <= i < s.filter(p).len() && 0 <= j < s.filter(p).len() && i != j implies s.filter(p)[i]
        != s.filter(p)[j] by {
        assert(key(s.filter(p)[i]) == s.filter(p)[i]);
        assert(key(s.filter(p)[j]) == s.filter(p)[j]);
    }
}

pub(crate) proof fn lemma_no_dup_remove<A>(s: Seq<A>, i: int)
    requires
        s.no_duplicates(),
        0 <= i < s.len(),
    ensures
        s.remove(i).no_duplicates(),
        forall|x: A| #[trigger] s.remove(i).contains(x) <==> s.contains(x) && x != s[i],
{
    let r = s.remove(i);
    assert forall|k: int| 0 <= k < r.len() implies #[trigger] r[k] == if k < i {
        s[k]
    } else {
        s[k + 1]
    } by {}
    assert forall|x: A| s.contains(x) && x != s[i] implies #[trigger] r.contains(x) by {
        let k = choose|k: int| 0 <= k < s.len() && s[k] == x;
        if k < i {
            assert(r[k] == x);
        } else {
            assert(r[k - 1] == x);
        }
    }
}

impl Ledger {
    fn is_referenced(&self, id: u128) -> (r: bool)
        ensures
            r == self.referenced(id),
    {
        let mut i: usize = 0;
        while i < self.associations.len()
            invariant
                i <= self.associations@.len(),
                forall|k: int| 0 <= k < i ==> self.associations@[k].input_object_id != id,
            decreases self.associations@.len() - i,
        {
            if self.associations[i].input_object_id == id {
                assert(self.associations()[i as int].input_object_id == id);
                return true;
            }
            i = i + 1;
        }
        false
    }

    /// Deletes every association of object `id`; deleting none is no failure.
    pub fn delete_associations_for_object(&mut self, id: u128)
        requires
            old(self).wf(),
        ensures
            final(self).wf(),
            final(self).associations() == old(self).associations().filter(other_object(id)),
            final(self).objects() == old(self).objects(),
            final(self).submissions() == old(self).submissions(),
            !final(self).referenced(id),
    {
        let ghost p = other_object(id);
        let mut kept: Vec<Association> = Vec::new();
        let mut i: usize = 0;
        assert(self.associations@.take(0) == Seq::<Association>::empty());
        reveal(Seq::filter);
        while i < self.associations.len()
            invariant
                i <= self.associations@.len(),
                p == other_object(id),
                kept@ == self.associations@.take(i as int).filter(p),
            decreases self.associations@.len() - i,
        {
            proof {
                lemma_take_filter_push(self.associations@, p, i as int);
            }
            let a = self.associations[i];
            if a.input_object_id != id {
                kept.push(a);
            }
            i = i + 1;
        }
        assert(self.associations@.take(i as int) == self.associations@);
        let ghost before = *self;
        self.associations = kept;
        proof {
            let old_a = before.associations();
            let new_a = self.associations();
            lemma_no_dup_filter(old_a, p);
            assert forall|k: int| 0 <= k < new_a.len() implies old_a.contains(#[trigger] new_a[k])
                && p(new_a[k]) by {
                lemma_filter_in(old_a, p, k);
            }
            assert forall|k: int| 0 <= k < new_a.len() implies self.has_object(
                #[trigger] new_a[k].input_object_id,
            ) && self.has_submission(new_a[k].submission_id) by {
                let j = choose|j: int| 0 <= j < old_a.len() && old_a[j] == new_a[k];
                assert(before.has_object(old_a[j].input_object_id));
            }
            assert forall|x: u128, t: u128| #[trigger] self.linked(x, t) implies before.linked(x, t) by {
                let k = choose|k: int| 0 <= k < new_a.len() && new_a[k] == (Association { input_object_id: x, submission_id: t });
                assert(old_a.contains(new_a[k]));
            }
            assert forall|t: u128, f: Seq<char>, j: int| #[trigger] self.holds_slot(t, f, j) implies before.holds_slot(t, f, j) by {}
            assert forall|k: int| 0 <= k < new_a.len() implies #[trigger] new_a[k].input_object_id != id by {
                assert(p(new_a[k]));
            }
        }
    }

    /// Deletes the row of object `id`. Refused while associations point at it.
    pub fn delete_file_object(&mut self, id: u128) -> (r: Result<(), LedgerError>)
        requires
            old(self).wf(),
        ensures
            final(self).wf(),
            !old(self).has_object(id) ==> r == Err::<(), LedgerError>(LedgerError::NotFound)
                && *final(self) == *old(self),
            old(self).has_object(id) && old(self).referenced(id) ==> r == Err::<(), LedgerError>(
                LedgerError::StillReferenced,
            ) && *final(self) == *old(self),
            old(self).has_object(id) && !old(self).referenced(id) ==> r == Ok::<(), LedgerError>(())
                && final(self).objects() == old(self).objects().remove(old(self).index_of(id))
                && final(self).associations() == old(self).associations()
                && final(self).submissions() == old(self).submissions(),
            r is Ok ==> !final(self).has_object(id),
    {
        let i = match self.position(id) {
            None => return Err(LedgerError::NotFound),
            Some(i) => i,
        };
        if self.is_referenced(id) {
            return Err(LedgerError::StillReferenced);
        }
        let ghost before = *self;
        self.objects.remove(i);
        proof {
            let o = before.objects();
            let n = self.objects();
            assert forall|k: int| 0 <= k < n.len() implies #[trigger] n[k] == if k < i {
                o[k]
            } else {
                o[k + 1]
            } by {}
            assert forall|x: u128| before.has_object(x) && x != id implies self.has_object(x) by {
                let k = choose|k: int| 0 <= k < o.len() && #[trigger] o[k].id == x;
                if k < i {
                    assert(n[k].id == x);
                } else {
                    assert(k != i);
                    assert(n[k - 1].id == x);
                }
            }
            assert forall|k: int| 0 <= k < self.associations().len() implies self.has_object(
                #[trigger] self.associations()[k].input_object_id,
            ) && self.has_submission(self.associations()[k].submission_id) by {
                assert(before.has_object(before.associations()[k].input_object_id));
            }
            assert forall|t: u128, f: Seq<char>, j: int| #[trigger] self.holds_slot(t, f, j) implies before.holds_slot(t, f, if j < i { j } else { j + 1 }) by {}
            assert forall|t: u128, f: Seq<char>, a: int, b: int| #[trigger] self.holds_slot(t, f, a) && #[trigger] self.holds_slot(t, f, b) implies a == b by {
                assert(before.holds_slot(t, f, if a < i { a } else { a + 1 }));
                assert(before.holds_slot(t, f, if b < i { b } else { b + 1 }));
            }
            assert forall|a: int, b: int| 0 <= a < n.len() && 0 <= b < n.len() && #[trigger] n[a].id == #[trigger] n[b].id implies a == b by {
                let a2 = if a < i { a } else { a + 1 };
                let b2 = if b < i { b } else { b + 1 };
                assert(o[a2].id == o[b2].id);
            }
            assert forall|k: int| 0 <= k < n.len() implies #[trigger] n[k].id != id by {
                let k2 = if k < i { k } else { k + 1 };
                assert(o[k2].id != o[i as int].id);
            }
        }
        Ok(())
    }

    /// Links object `id` to submission `s`. Refused when either is missing,
    /// when the link exists, or when `s` already holds another object of the
    /// same filename.
    pub fn insert_association(&mut self, id: u128, s: u128) -> (r: Result<(), LedgerError>)
        requires
            old(self).wf(),
        ensures
            final(self).wf(),
            r is Err ==> *final(self) == *old(self),
            (!old(self).has_object(id) || !old(self).has_submission(s)) ==> r == Err::<(), LedgerError>(LedgerError::NotFound),
            old(self).has_object(id) && old(self).has_submission(s) && old(self).linked(id, s) ==> r == Err::<(), LedgerError>(LedgerError::Duplicate),
            old(self).has_object(id) && old(self).has_submission(s) && !old(self).linked(id, s)
                && old(self).slot(s, old(self).objects()[old(self).index_of(id)].filename@) is Some
                ==> r == Err::<(), LedgerError>(LedgerError::FilenameTaken),
            old(self).has_object(id) && old(self).has_submission(s) && !old(self).linked(id, s)
                && old(self).slot(s, old(self).objects()[old(self).index_of(id)].filename@) is None
                ==> r == Ok::<(), LedgerError>(()) && final(self).associations() == old(self).associations().push(
                Association { input_object_id: id, submission_id: s },
            ) && final(self).objects() == old(self).objects() && final(self).submissions()
                == old(self).submissions(),
    {
        let i = match self.position(id) {
            None => return Err(LedgerError::NotFound),
            Some(i) => i,
        };
        if !self.contains_submission(s) {
            return Err(LedgerError::NotFound);
        }
        if self.is_linked(id, s) {
            return Err(LedgerError::Duplicate);
        }
        let holders = self.find_by_submission_and_filename(s, &self.objects[i].filename);
        if holders.len() > 0 {
            return Err(LedgerError::FilenameTaken);
        }
        let ghost before = *self;
        let a = Association { input_object_id: id, submission_id: s };
        self.associations.push(a);
        proof {
            let f = before.objects()[i as int].filename@;
            assert(!(exists|j: int| before.holds_slot(s, f, j)));
            let old_a = before.associations();
            let new_a = self.associations();
            assert forall|x: u128, t: u128| #[trigger] self.linked(x, t) implies before.linked(x, t) || (x == id && t == s) by {
                let k = choose|k: int| 0 <= k < new_a.len() && new_a[k] == (Association { input_object_id: x, submission_id: t });
                if k < old_a.len() {
                    assert(old_a[k] == new_a[k]);
                }
            }
            assert forall|x: u128, t: u128| before.linked(x, t) implies #[trigger] self.linked(x, t) by {
                let k = choose|k: int| 0 <= k < old_a.len() && old_a[k] == (Association { input_object_id: x, submission_id: t });
                assert(new_a[k] == old_a[k]);
            }
            assert forall|k: int| 0 <= k < new_a.len() implies self.has_object(
                #[trigger] new_a[k].input_object_id,
            ) && self.has_submission(new_a[k].submission_id) by {
                if k < old_a.len() {
                    assert(old_a[k] == new_a[k]);
                    assert(before.has_object(old_a[k].input_object_id));
                }
            }
            assert forall|t: u128, g: Seq<char>, x: int, y: int| #[trigger] self.holds_slot(t, g, x) && #[trigger] self.holds_slot(t, g, y) implies x == y by {
                let ox = self.objects()[x];
                let oy = self.objects()[y];
                if before.holds_slot(t, g, x) && before.holds_slot(t, g, y) {
                } else if before.holds_slot(t, g, x) {
                    assert(oy.id == id && t == s);
                    assert(y == i as int);
                    assert(before.holds_slot(s, f, x));
                } else if before.holds_slot(t, g, y) {
                    assert(ox.id == id && t == s);
                    assert(x == i as int);
                    assert(before.holds_slot(s, f, y));
                } else {
                    assert(ox.id == id && oy.id == id);
                }
            }
            assert(new_a == old_a.push(a));
            assert forall|x: int, y: int| 0 <= x < new_a.len() && 0 <= y < new_a.len() && x != y implies new_a[x] != new_a[y] by {
                if x < old_a.len() && y < old_a.len() {
                } else if x < old_a.len() {
                    if new_a[x] == new_a[y] {
                        assert(old_a[x] == a);
                        assert(before.linked(id, s));
                    }
                } else if y < old_a.len() {
                    if new_a[x] == new_a[y] {
                        assert(old_a[y] == a);
                        assert(before.linked(id, s));
                    }
                }
            }
        }
        Ok(())
    }
}


impl Ledger {
    /// Objects linked to submission `s`.
    pub open spec fn in_submission(&self, s: u128) -> spec_fn(FileObject) -> bool {
        |o: FileObject| self.linked(o.id, s)
    }

    /// Objects not linked to submission `s`.
    pub open spec fn outside_submission(&self, s: u128) -> spec_fn(FileObject) -> bool {
        |o: FileObject| !self.linked(o.id, s)
    }

    /// Associations of objects that are not linked to submission `s`.
    pub open spec fn link_outside(&self, s: u128) -> spec_fn(Association) -> bool {
        |a: Association| !self.linked(a.input_object_id, s)
    }

    /// The ids of the objects of submission `s`, in ledger order.
    pub open spec fn members(&self, s: u128) -> Seq<u128> {
        self.objects().filter(self.in_submission(s)).map_values(|o: FileObject| o.id)
    }

    pub open spec fn submission_index(&self, s: u128) -> int {
        choose|k: int| 0 <= k < self.submissions().len() && self.submissions()[k] == s
    }

    fn submission_position(&self, s: u128) -> (r: Option<usize>)
        requires
            self.wf(),
        ensures
            r is Some <==> self.has_submission(s),
            r matches Some(k) ==> k == self.submission_index(s),
    {
        let mut i: usize = 0;
        while i < self.submissions.len()
            invariant
                self.wf(),
                i <= self.submissions@.len(),
                forall|k: int| 0 <= k < i ==> self.submissions@[k] != s,
            decreases self.submissions@.len() - i,
        {
            if self.submissions[i] == s {
                assert(self.submissions()[i as int] == s);
                let ghost j = self.submission_index(s);
                assert(self.submissions()[j] == s);
                return Some(i);
            }
            i = i + 1;
        }
        None
    }

    /// Removes submission `s` together with every object linked to it and
    /// every association of those objects. Returns the ids of the removed
    /// objects in ledger order.
    pub fn remove_submission_cascade(&mut self, s: u128) -> (r: Result<Vec<u128>, LedgerError>)
        requires
            old(self).wf(),
        ensures
            final(self).wf(),
            !old(self).has_submission(s) ==> r is Err && r->Err_0 == LedgerError::NotFound
                && *final(self) == *old(self),
            old(self).has_submission(s) ==> r is Ok && r->Ok_0@ == old(self).members(s)
                && final(self).objects() == old(self).objects().filter(old(self).outside_submission(s))
                && final(self).associations() == old(self).associations().filter(
                old(self).link_outside(s),
            ) && final(self).submissions() == old(self).submissions().remove(
                old(self).submission_index(s),
            ),
    {
        let si = match self.submission_position(s) {
            None => return Err(LedgerError::NotFound),
            Some(k) => k,
        };
        let ghost inside = self.in_submission(s);
        let ghost outside = self.outside_submission(s);
        let ghost keep_link = self.link_outside(s);
        let ghost to_id = |o: FileObject| o.id;
        let mut removed: Vec<u128> = Vec::new();
        let mut kept: Vec<FileObject> = Vec::new();
        let mut i: usize = 0;
        assert(self.objects@.take(0) == Seq::<FileObject>::empty());
        reveal(Seq::filter);
        while i < self.objects.len()
            invariant
                i <= self.objects@.len(),
                inside == self.in_submission(s),
                outside == self.outside_submission(s),
                to_id == (|o: FileObject| o.id),
                kept@ == self.objects@.take(i as int).filter(outside),
                removed@ == self.objects@.take(i as int).filter(inside).map_values(to_id),
            decreases self.objects@.len() - i,
        {
            proof {
                lemma_take_filter_push(self.objects@, inside, i as int);
                lemma_take_filter_push(self.objects@, outside, i as int);
            }
            let id = self.objects[i].id;
            if self.is_linked(id, s) {
                removed.push(id);
                proof {
                    let t = self.objects@.take(i as int).filter(inside);
                    assert(t.push(self.objects@[i as int]).map_values(to_id) =~= t.map_values(to_id).push(id));
                }
            } else {
                kept.push(self.objects[i].clone());
            }
            i = i + 1;
        }
        assert(self.objects@.take(i as int) == self.objects@);
        let mut kept_links: Vec<Association> = Vec::new();
        let mut k: usize = 0;
        assert(self.associations@.take(0) == Seq::<Association>::empty());
        while k < self.associations.len()
            invariant
                k <= self.associations@.len(),
                keep_link == self.link_outside(s),
                kept_links@ == self.associations@.take(k as int).filter(keep_link),
            decreases self.associations@.len() - k,
        {
            proof {
                lemma_take_filter_push(self.associations@, keep_link, k as int);
            }
            let a = self.associations[k];
            if !self.is_linked(a.input_object_id, s) {
                kept_links.push(a);
            }
            k = k + 1;
        }
        assert(self.associations@.take(k as int) == self.associations@);
        let ghost before = *self;
        self.objects = kept;
        self.associations = kept_links;
        self.submissions.remove(si);
        proof {
            let oo = before.objects();
            let no = self.objects();
            let oa = before.associations();
            let na = self.associations();
            lemma_no_dup_remove(before.submissions(), si as int);
            lemma_no_dup_filter(oa, keep_link);
            lemma_filter_keys_distinct(oo, outside, to_id);
            assert forall|a: int, b: int| 0 <= a < no.len() && 0 <= b < no.len() && #[trigger] no[a].id == #[trigger] no[b].id implies a == b by {
                assert(to_id(no[a]) == to_id(no[b]));
            }
            assert forall|j: int| 0 <= j < na.len() implies oa.contains(#[trigger] na[j]) && keep_link(na[j]) by {
                lemma_filter_in(oa, keep_link, j);
            }
            assert forall|j: int| 0 <= j < no.len() implies oo.contains(#[trigger] no[j]) && outside(no[j]) by {
                lemma_filter_in(oo, outside, j);
            }
            assert forall|x: u128, t: u128| #[trigger] self.linked(x, t) implies before.linked(x, t) && !before.linked(x, s) by {
                let j = choose|j: int| 0 <= j < na.len() && na[j] == (Association { input_object_id: x, submission_id: t });
                assert(oa.contains(na[j]) && keep_link(na[j]));
            }
            assert forall|j: int| 0 <= j < na.len() implies self.has_object(
                #[trigger] na[j].input_object_id,
            ) && self.has_submission(na[j].submission_id) by {
                let a = na[j];
                assert(oa.contains(a) && keep_link(a));
                let q = choose|q: int| 0 <= q < oa.len() && oa[q] == a;
                assert(before.has_object(oa[q].input_object_id));
                let w = choose|w: int| 0 <= w < oo.len() && #[trigger] oo[w].id == a.input_object_id;
                assert(outside(oo[w]));
                oo.lemma_filter_contains(outside, w);
                let z = choose|z: int| 0 <= z < no.len() && no[z] == oo[w];
                assert(no[z].id == a.input_object_id);
                assert(before.has_submission(a.submission_id));
                assert(a.submission_id != s) by {
                    if a.submission_id == s {
                        assert(oa[q] == (Association { input_object_id: a.input_object_id, submission_id: s }));
                    }
                }
                assert(before.submissions().remove(si as int).contains(a.submission_id));
            }
            assert forall|t: u128, g: Seq<char>, x: int, y: int| #[trigger] self.holds_slot(t, g, x) && #[trigger] self.holds_slot(t, g, y) implies x == y by {
                let x2 = choose|q: int| 0 <= q < oo.len() && oo[q] == no[x];
                let y2 = choose|q: int| 0 <= q < oo.len() && oo[q] == no[y];
                assert(before.holds_slot(t, g, x2));
                assert(before.holds_slot(t, g, y2));
                assert(no[x].id == no[y].id);
            }
        }
        Ok(removed)
    }
}


/// Once the object holding a slot is gone together with its associations, the
/// slot is free.
pub proof fn lemma_slot_freed(l0: Ledger, l1: Ledger, s: u128, f: Seq<char>)
    requires
        l0.wf(),
        l0.slot(s, f) is Some,
        l1.objects() == l0.objects().remove(l0.index_of(l0.slot(s, f)->Some_0.id)),
        l1.associations() == l0.associations().filter(other_object(l0.slot(s, f)->Some_0.id)),
    ensures
        l1.slot(s, f) is None,
{
    let xi = choose|i: int| l0.holds_slot(s, f, i);
    let x = l0.objects()[xi];
    assert(l0.has_object(x.id));
    let k = l0.index_of(x.id);
    assert(l0.objects()[k].id == x.id);
    assert(k == xi);
    assert forall|j: int| !#[trigger] l1.holds_slot(s, f, j) by {
        if l1.holds_slot(s, f, j) {
            let j2 = if j < xi {
                j
            } else {
                j + 1
            };
            assert(l1.objects()[j] == l0.objects()[j2]);
            let a = Association { input_object_id: l1.objects()[j].id, submission_id: s };
            let q = choose|q: int| 0 <= q < l1.associations().len() && l1.associations()[q] == a;
            lemma_filter_in(l0.associations(), other_object(x.id), q);
            assert(l0.linked(a.input_object_id, s));
            assert(l0.holds_slot(s, f, j2));
        }
    }
}

/// Adding a row whose id was unknown leaves every slot as it was.
pub proof fn lemma_slot_after_fresh_row(l0: Ledger, l1: Ledger, o: FileObject, s: u128, f: Seq<char>)
    requires
        l0.wf(),
        !l0.has_object(o.id),
        l1.objects() == l0.objects().push(o),
        l1.associations() == l0.associations(),
    ensures
        l1.slot(s, f) == l0.slot(s, f),
        !l1.linked(o.id, s),
{
    assert(!l0.linked(o.id, s)) by {
        if l0.linked(o.id, s) {
            let q = choose|q: int| 0 <= q < l0.associations().len() && l0.associations()[q] == (Association { input_object_id: o.id, submission_id: s });
            assert(l0.has_object(l0.associations()[q].input_object_id));
        }
    }
    assert forall|j: int| #[trigger] l1.holds_slot(s, f, j) == l0.holds_slot(s, f, j) by {}
    if exists|j: int| l0.holds_slot(s, f, j) {
        let a = choose|j: int| l0.holds_slot(s, f, j);
        assert(l1.holds_slot(s, f, a));
        let b = choose|j: int| l1.holds_slot(s, f, j);
        assert(l0.holds_slot(s, f, b));
        assert(a == b);
        assert(l1.objects()[b] == l0.objects()[a]);
    }
}


impl Ledger {
    /// How many object rows the ledger holds.
    pub fn object_count(&self) -> (r: usize)
        ensures
            r == self.objects().len(),
    {
        self.objects.len()
    }

    /// How many associations the ledger holds.
    pub fn association_count(&self) -> (r: usize)
        ensures
            r == self.associations().len(),
    {
        self.associations.len()
    }
}

} // verus!
