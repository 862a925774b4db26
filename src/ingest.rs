//! The ingestion state machine: one handler per lifecycle event, each of which
//! advances the ledger, refuses, or does nothing.
//!
//! A handler that succeeds also returns the ordered list of effects it applied,
//! for the caller to carry out against the relational store and the blob store
//! in that order. A handler that fails changes nothing and returns no effect.

use crate::config::UploadPolicy;
use crate::config::is_listed;
use crate::config::listed;
use crate::event::EventPayload;
use crate::event::EventType;
use crate::event::header_submission;
use crate::event::submission_id_of;
use crate::ids::handle_object;
use crate::ids::now_micros;
use crate::ids::random_uuid;
use crate::ids::object_id_from_handle;
use crate::ids::storage_key;
use crate::ids::storage_key_text;
use crate::ledger::lemma_slot_after_fresh_row;
use crate::ledger::lemma_slot_freed;
use crate::ledger::other_object;
use crate::ledger::Association;
use crate::ledger::FileObject;
use crate::ledger::Ledger;
use crate::ledger::UploadState;
use crate::text::extension;
use crate::text::file_extension;
use crate::text::progress_message;
use crate::text::progress_text;
use vstd::prelude::*;

verus! {

/// Why an event was not applied.
#[derive(Clone, Copy, Debug, PartialEq, Eq, Structural)]
pub enum IngestError {
    /// Disallowed content type or extension, or no usable submission id.
    Validation,
    /// The submission already holds a complete file of this name.
    Conflict,
    /// The object or submission the event names does not exist.
    NotFound,
    /// The blob store failed.
    StorageFailure,
    /// The relational store failed or refused.
    LedgerFailure,
    /// An event kind that this service does not handle.
    UnknownEvent,
}

/// One change to carry out against the stores, in list order.
#[derive(Debug)]
pub enum Effect {
    DeleteBlob(u128),
    DeleteAssociations(u128),
    DeleteRow(u128),
    InsertRow(FileObject),
    InsertAssociation(Association),
    UpdateRow(FileObject),
    DeleteSubmission(u128),
}

/// What an applied event hands back: the storage key the proxy is to write
/// to (only after a creation) and the effects to carry out.
#[derive(Debug)]
pub struct Ingested {
    pub change_key: Option<String>,
    pub effects: Vec<Effect>,
}

/// The row that a creation inserts.
pub open spec fn is_fresh_row(o: FileObject, id: u128, now: i64, filename: Seq<char>, size: i64) -> bool {
    &&& o.id == id
    &&& o.created_on == now
    &&& o.filename@ == filename
    &&& o.size_bytes == size
    &&& o.state == UploadState::Initiated
    &&& o.last_part_received == Some(now)
    &&& o.processing_message matches Some(m) && m@ == "Upload initiated"@
}

/// `n` is `o` with status `message` at time `at`, and complete if `complete`
/// asks for it; filename, size and creation time are those of `o`.
pub open spec fn is_touched(o: FileObject, n: FileObject, message: Seq<char>, at: i64, complete: bool) -> bool {
    &&& n == (FileObject {
        processing_message: n.processing_message,
        last_part_received: Some(at),
        state: if complete {
            UploadState::Completed
        } else {
            o.state
        },
        ..o
    })
    &&& n.processing_message matches Some(m) && m@ == message
}

/// Why a creation is refused, if it is: checks in this order.
pub open spec fn pre_create_error(l: Ledger, p: UploadPolicy, e: EventPayload, id: u128) -> Option<IngestError> {
    let meta = e.event.upload.metadata;
    match header_submission(e.event.http_request.header.submission_id) {
        None => Some(IngestError::Validation),
        Some(s) => if !listed(p.allowed_content_types@, meta.filetype@) {
            Some(IngestError::Validation)
        } else if !listed(p.allowed_extensions@, extension(meta.filename@)) {
            Some(IngestError::Validation)
        } else if !l.has_submission(s) {
            Some(IngestError::NotFound)
        } else if l.slot(s, meta.filename@) matches Some(o) && o.complete() {
            Some(IngestError::Conflict)
        } else if l.has_object(id) {
            Some(IngestError::LedgerFailure)
        } else {
            None
        },
    }
}

/// A creation as applied: the incomplete object holding the slot, if any, is
/// reclaimed (blob, associations, row), then the new row and its association
/// are inserted.
pub open spec fn pre_create_applied(
    old: Ledger,
    new: Ledger,
    p: UploadPolicy,
    e: EventPayload,
    id: u128,
    now: i64,
    out: Ingested,
) -> bool {
    let s = header_submission(e.event.http_request.header.submission_id)->Some_0;
    let f = e.event.upload.metadata.filename@;
    let n = new.objects().last();
    let link = Association { input_object_id: id, submission_id: s };
    &&& is_fresh_row(n, id, now, f, e.event.upload.size)
    &&& new.submissions() == old.submissions()
    &&& out.change_key matches Some(k) && k@ == storage_key_text(p.key_prefix@, id)
    &&& match old.slot(s, f) {
        Some(x) => {
            &&& new.objects() == old.objects().remove(old.index_of(x.id)).push(n)
            &&& new.associations() == old.associations().filter(other_object(x.id)).push(link)
            &&& out.effects@ == seq![
                Effect::DeleteBlob(x.id),
                Effect::DeleteAssociations(x.id),
                Effect::DeleteRow(x.id),
                Effect::InsertRow(n),
                Effect::InsertAssociation(link),
            ]
        },
        None => {
            &&& new.objects() == old.objects().push(n)
            &&& new.associations() == old.associations().push(link)
            &&& out.effects@ == seq![Effect::InsertRow(n), Effect::InsertAssociation(link)]
        },
    }
}

pub open spec fn pre_create_spec(
    old: Ledger,
    new: Ledger,
    p: UploadPolicy,
    e: EventPayload,
    id: u128,
    now: i64,
    r: Result<Ingested, IngestError>,
) -> bool {
    match pre_create_error(old, p, e, id) {
        Some(err) => r == Err::<Ingested, IngestError>(err) && new == old,
        None => r matches Ok(out) && pre_create_applied(old, new, p, e, id, now, out),
    }
}

/// A status update of the object `target` names. With `guard`, an object that
/// is already complete is left as it is.
pub open spec fn touch_spec(
    old: Ledger,
    new: Ledger,
    target: Option<u128>,
    message: Seq<char>,
    now: i64,
    complete: bool,
    guard: bool,
    r: Result<Ingested, IngestError>,
) -> bool {
    match target {
        Some(id) if old.has_object(id) => {
            let i = old.index_of(id);
            if guard && old.objects()[i].complete() {
                r matches Ok(out) && out.change_key is None && out.effects@.len() == 0 && new == old
            } else {
                let n = new.objects()[i];
                &&& r matches Ok(out) && out.change_key is None && out.effects@ == seq![
                    Effect::UpdateRow(n),
                ]
                &&& new.objects() == old.objects().update(i, n)
                &&& is_touched(old.objects()[i], n, message, now, complete)
                &&& new.associations() == old.associations()
                &&& new.submissions() == old.submissions()
            }
        },
        _ => r == Err::<Ingested, IngestError>(IngestError::NotFound) && new == old,
    }
}

/// The effects of deleting object `id`, blob included or not.
pub open spec fn removal_effects(id: u128, with_blob: bool) -> Seq<Effect> {
    if with_blob {
        seq![Effect::DeleteAssociations(id), Effect::DeleteBlob(id), Effect::DeleteRow(id)]
    } else {
        seq![Effect::DeleteAssociations(id), Effect::DeleteRow(id)]
    }
}

/// Deletion of the object `target` names: associations first, then its blob
/// if `with_blob`, then its row.
pub open spec fn removal_spec(
    old: Ledger,
    new: Ledger,
    target: Option<u128>,
    with_blob: bool,
    r: Result<Ingested, IngestError>,
) -> bool {
    match target {
        Some(id) if old.has_object(id) => {
            &&& r matches Ok(out) && out.change_key is None && out.effects@ == removal_effects(
                id,
                with_blob,
            )
            &&& new.objects() == old.objects().remove(old.index_of(id))
            &&& new.associations() == old.associations().filter(other_object(id))
            &&& new.submissions() == old.submissions()
        },
        _ => r == Err::<Ingested, IngestError>(IngestError::NotFound) && new == old,
    }
}

/// The effects of deleting the objects `ids` in turn.
pub open spec fn cascade_effects(ids: Seq<u128>) -> Seq<Effect>
    decreases ids.len(),
{
    if ids.len() == 0 {
        Seq::empty()
    } else {
        cascade_effects(ids.drop_last()) + removal_effects(ids.last(), true)
    }
}

/// Deletion of submission `s`: each of its objects as a direct deletion
/// would do it, then the submission row.
pub open spec fn cascade_spec(old: Ledger, new: Ledger, s: u128, r: Result<Ingested, IngestError>) -> bool {
    if old.has_submission(s) {
        &&& r matches Ok(out) && out.change_key is None && out.effects@ == cascade_effects(
            old.members(s),
        ).push(Effect::DeleteSubmission(s))
        &&& new.objects() == old.objects().filter(old.outside_submission(s))
        &&& new.associations() == old.associations().filter(old.link_outside(s))
        &&& new.submissions() == old.submissions().remove(old.submission_index(s))
    } else {
        r == Err::<Ingested, IngestError>(IngestError::NotFound) && new == old
    }
}

impl Ledger {
    /// Starts an upload: validates it, refuses it when the submission already
    /// holds a complete file of that name, reclaims an incomplete one, and
    /// records the new object `id` created at `now`.
    pub fn pre_create(&mut self, policy: &UploadPolicy, payload: &EventPayload, id: u128, now: i64) -> (r: Result<Ingested, IngestError>)
        requires
            old(self).wf(),
        ensures
            final(self).wf(),
            pre_create_spec(*old(self), *final(self), *policy, *payload, id, now, r),
    {
        let upload = &payload.event.upload;
        let s = match submission_id_of(&payload.event.http_request.header) {
            None => return Err(IngestError::Validation),
            Some(s) => s,
        };
        if !is_listed(&policy.allowed_content_types, &upload.metadata.filetype) {
            return Err(IngestError::Validation);
        }
        let ext = String::from_str(file_extension(upload.metadata.filename.as_str()));
        if !is_listed(&policy.allowed_extensions, &ext) {
            return Err(IngestError::Validation);
        }
        if !self.contains_submission(s) {
            return Err(IngestError::NotFound);
        }
        let holders = self.find_by_submission_and_filename(s, &upload.metadata.filename);
        if holders.len() > 0 && holders[0].all_parts_received() {
            return Err(IngestError::Conflict);
        }
        if self.find_file_object(id).is_some() {
            return Err(IngestError::LedgerFailure);
        }
        let ghost l0 = *self;
        let ghost f = upload.metadata.filename@;
        let mut effects: Vec<Effect> = Vec::new();
        if holders.len() > 0 {
            let x = holders[0].id;
            effects.push(Effect::DeleteBlob(x));
            self.delete_associations_for_object(x);
            effects.push(Effect::DeleteAssociations(x));
            let _ = self.delete_file_object(x);
            effects.push(Effect::DeleteRow(x));
            proof {
                lemma_slot_freed(l0, *self, s, f);
            }
        }
        let ghost l1 = *self;
        assert(!l1.has_object(id)) by {
            if l1.has_object(id) {
                let k = choose|k: int| 0 <= k < l1.objects().len() && #[trigger] l1.objects()[k].id == id;
                if holders@.len() > 0 {
                    let xi = l0.index_of(holders@[0].id);
                    assert(l1.objects()[k] == l0.objects()[if k < xi { k } else { k + 1 }]);
                } else {
                    assert(l0.objects()[k].id == id);
                }
            }
        }
        let row = FileObject {
            id,
            created_on: now,
            filename: upload.metadata.filename.clone(),
            size_bytes: upload.size,
            state: UploadState::Initiated,
            last_part_received: Some(now),
            processing_message: Some(String::from_str("Upload initiated")),
        };
        let _ = self.insert_file_object(row.clone());
        proof {
            lemma_slot_after_fresh_row(l1, *self, row, s, f);
            let last = (self.objects().len() - 1) as int;
            assert(self.objects()[last].id == id);
            assert(self.has_object(id));
            assert(self.objects()[self.index_of(id)].id == id);
            assert(self.index_of(id) == last);
        }
        let _ = self.insert_association(id, s);
        effects.push(Effect::InsertRow(row));
        effects.push(Effect::InsertAssociation(Association { input_object_id: id, submission_id: s }));
        let key = storage_key(policy.key_prefix.as_str(), id);
        let out = Ingested { change_key: Some(key), effects };
        proof {
            let link = Association { input_object_id: id, submission_id: s };
            assert(self.objects().last() == row);
            if holders@.len() > 0 {
                assert(old(self).slot(s, f) == Some(holders@[0]));
                let x = holders@[0];
                assert(out.effects@ == seq![
                    Effect::DeleteBlob(x.id),
                    Effect::DeleteAssociations(x.id),
                    Effect::DeleteRow(x.id),
                    Effect::InsertRow(row),
                    Effect::InsertAssociation(link),
                ]);
            } else {
                assert(old(self).slot(s, f) is None);
                assert(out.effects@ == seq![Effect::InsertRow(row), Effect::InsertAssociation(link)]);
            }
            assert(pre_create_applied(*old(self), *self, *policy, *payload, id, now, out));
        }
        Ok(out)
    }
}


/// How the state machine answers each kind of event.
pub open spec fn handled_spec(
    old: Ledger,
    new: Ledger,
    p: UploadPolicy,
    e: EventPayload,
    id: u128,
    now: i64,
    r: Result<Ingested, IngestError>,
) -> bool {
    let target = handle_object(e.event.upload.id@);
    match e.event_type {
        EventType::PreCreate => pre_create_spec(old, new, p, e, id, now, r),
        EventType::PostCreate => touch_spec(old, new, target, "Upload started"@, now, false, false, r),
        EventType::PostReceive => touch_spec(
            old,
            new,
            target,
            progress_message(e.event.upload.offset, e.event.upload.size),
            now,
            false,
            true,
            r,
        ),
        EventType::PreFinish | EventType::PostFinish => touch_spec(
            old,
            new,
            target,
            "Upload completed"@,
            now,
            true,
            true,
            r,
        ),
        EventType::PostTerminate => removal_spec(old, new, target, p.delete_blob_on_terminate, r),
        EventType::Unknown => r == Err::<Ingested, IngestError>(IngestError::UnknownEvent) && new
            == old,
    }
}

impl Ledger {
    fn touch(&mut self, target: Option<u128>, message: String, now: i64, complete: bool, guard: bool) -> (r: Result<Ingested, IngestError>)
        requires
            old(self).wf(),
        ensures
            final(self).wf(),
            touch_spec(*old(self), *final(self), target, message@, now, complete, guard, r),
    {
        let id = match target {
            None => return Err(IngestError::NotFound),
            Some(id) => id,
        };
        let current = match self.find_file_object(id) {
            None => return Err(IngestError::NotFound),
            Some(o) => o,
        };
        if guard && current.all_parts_received() {
            return Ok(Ingested { change_key: None, effects: Vec::new() });
        }
        let ghost text = message@;
        let ghost i = self.index_of(id);
        let _ = self.update_file_object(id, message, now, complete);
        proof {
            assert(self.objects()[i].id == id);
            assert(self.has_object(id));
            assert(self.objects()[self.index_of(id)].id == id);
        }
        let updated = match self.find_file_object(id) {
            Some(o) => o,
            None => current,
        };
        let mut effects: Vec<Effect> = Vec::new();
        effects.push(Effect::UpdateRow(updated));
        Ok(Ingested { change_key: None, effects })
    }

    fn remove_object(&mut self, target: Option<u128>, with_blob: bool) -> (r: Result<Ingested, IngestError>)
        requires
            old(self).wf(),
        ensures
            final(self).wf(),
            removal_spec(*old(self), *final(self), target, with_blob, r),
    {
        let id = match target {
            None => return Err(IngestError::NotFound),
            Some(id) => id,
        };
        if self.find_file_object(id).is_none() {
            return Err(IngestError::NotFound);
        }
        let mut effects: Vec<Effect> = Vec::new();
        self.delete_associations_for_object(id);
        effects.push(Effect::DeleteAssociations(id));
        if with_blob {
            effects.push(Effect::DeleteBlob(id));
        }
        let _ = self.delete_file_object(id);
        effects.push(Effect::DeleteRow(id));
        assert(effects@ == removal_effects(id, with_blob));
        Ok(Ingested { change_key: None, effects })
    }

    /// The upload has started: records it in the object's status.
    pub fn post_create(&mut self, payload: &EventPayload, now: i64) -> (r: Result<Ingested, IngestError>)
        requires
            old(self).wf(),
        ensures
            final(self).wf(),
            touch_spec(*old(self), *final(self), handle_object(payload.event.upload.id@), "Upload started"@, now, false, false, r),
    {
        let target = object_id_from_handle(payload.event.upload.id.as_str());
        self.touch(target, String::from_str("Upload started"), now, false, false)
    }

    /// Progress of an upload: records the share received, unless the object
    /// is already complete.
    pub fn post_receive(&mut self, payload: &EventPayload, now: i64) -> (r: Result<Ingested, IngestError>)
        requires
            old(self).wf(),
        ensures
            final(self).wf(),
            touch_spec(
                *old(self),
                *final(self),
                handle_object(payload.event.upload.id@),
                progress_message(payload.event.upload.offset, payload.event.upload.size),
                now,
                false,
                true,
                r,
            ),
    {
        let target = object_id_from_handle(payload.event.upload.id.as_str());
        let message = progress_text(payload.event.upload.offset, payload.event.upload.size);
        self.touch(target, message, now, false, true)
    }

    fn finish(&mut self, payload: &EventPayload, now: i64) -> (r: Result<Ingested, IngestError>)
        requires
            old(self).wf(),
        ensures
            final(self).wf(),
            touch_spec(*old(self), *final(self), handle_object(payload.event.upload.id@), "Upload completed"@, now, true, true, r),
    {
        let target = object_id_from_handle(payload.event.upload.id.as_str());
        self.touch(target, String::from_str("Upload completed"), now, true, true)
    }

    /// Every part has arrived: the object becomes complete. An object that is
    /// complete already is left as it is.
    pub fn pre_finish(&mut self, payload: &EventPayload, now: i64) -> (r: Result<Ingested, IngestError>)
        requires
            old(self).wf(),
        ensures
            final(self).wf(),
            touch_spec(*old(self), *final(self), handle_object(payload.event.upload.id@), "Upload completed"@, now, true, true, r),
    {
        self.finish(payload, now)
    }

    /// The same transition as `pre_finish`, sent once the proxy is done.
    pub fn post_finish(&mut self, payload: &EventPayload, now: i64) -> (r: Result<Ingested, IngestError>)
        requires
            old(self).wf(),
        ensures
            final(self).wf(),
            touch_spec(*old(self), *final(self), handle_object(payload.event.upload.id@), "Upload completed"@, now, true, true, r),
    {
        self.finish(payload, now)
    }

    /// The upload was terminated: its associations and row are deleted, and
    /// its blob too where the policy asks for it.
    pub fn post_terminate(&mut self, policy: &UploadPolicy, payload: &EventPayload) -> (r: Result<Ingested, IngestError>)
        requires
            old(self).wf(),
        ensures
            final(self).wf(),
            removal_spec(*old(self), *final(self), handle_object(payload.event.upload.id@), policy.delete_blob_on_terminate, r),
    {
        let target = object_id_from_handle(payload.event.upload.id.as_str());
        self.remove_object(target, policy.delete_blob_on_terminate)
    }

    /// Deletes object `id`: its associations, then its blob, then its row.
    pub fn delete_object(&mut self, id: u128) -> (r: Result<Ingested, IngestError>)
        requires
            old(self).wf(),
        ensures
            final(self).wf(),
            removal_spec(*old(self), *final(self), Some(id), true, r),
    {
        self.remove_object(Some(id), true)
    }

    /// Deletes submission `s`: each of its objects (associations, blob, row),
    /// then the submission row last.
    pub fn delete_submission(&mut self, s: u128) -> (r: Result<Ingested, IngestError>)
        requires
            old(self).wf(),
        ensures
            final(self).wf(),
            cascade_spec(*old(self), *final(self), s, r),
    {
        let removed = match self.remove_submission_cascade(s) {
            Err(_) => return Err(IngestError::NotFound),
            Ok(v) => v,
        };
        let mut effects: Vec<Effect> = Vec::new();
        let mut i: usize = 0;
        assert(removed@.take(0) == Seq::<u128>::empty());
        while i < removed.len()
            invariant
                i <= removed@.len(),
                effects@ == cascade_effects(removed@.take(i as int)),
            decreases removed@.len() - i,
        {
            let x = removed[i];
            effects.push(Effect::DeleteAssociations(x));
            effects.push(Effect::DeleteBlob(x));
            effects.push(Effect::DeleteRow(x));
            assert(removed@.take(i + 1).drop_last() == removed@.take(i as int));
            assert(effects@ == cascade_effects(removed@.take(i + 1)));
            i = i + 1;
        }
        assert(removed@.take(i as int) == removed@);
        effects.push(Effect::DeleteSubmission(s));
        Ok(Ingested { change_key: None, effects })
    }

    /// Applies one event, with `id` as the id of an object that a creation
    /// makes and `now` as the time.
    pub fn handle_event(&mut self, policy: &UploadPolicy, payload: &EventPayload, id: u128, now: i64) -> (r: Result<Ingested, IngestError>)
        requires
            old(self).wf(),
        ensures
            final(self).wf(),
            handled_spec(*old(self), *final(self), *policy, *payload, id, now, r),
    {
        match payload.event_type {
            EventType::PreCreate => self.pre_create(policy, payload, id, now),
            EventType::PostCreate => self.post_create(payload, now),
            EventType::PostReceive => self.post_receive(payload, now),
            EventType::PreFinish => self.pre_finish(payload, now),
            EventType::PostFinish => self.post_finish(payload, now),
            EventType::PostTerminate => self.post_terminate(policy, payload),
            EventType::Unknown => Err(IngestError::UnknownEvent),
        }
    }

    /// Applies one event with a fresh random object id and the current time.
    pub fn handle_event_now(&mut self, policy: &UploadPolicy, payload: &EventPayload) -> (r: Result<Ingested, IngestError>)
        requires
            old(self).wf(),
        ensures
            final(self).wf(),
            exists|id: u128, now: i64| handled_spec(*old(self), *final(self), *policy, *payload, id, now, r),
    {
        let id = random_uuid();
        let now = now_micros();
        self.handle_event(policy, payload, id, now)
    }
}

/// The proxy-facing details of an answer.
#[derive(Debug)]
pub struct ChangeFileInfo {
    pub id: String,
}

#[derive(Debug)]
pub struct HttpResponse {
    pub status_code: Option<u16>,
    pub body: Option<String>,
}

/// The answer to the proxy.
#[derive(Debug)]
pub struct PreCreateResponse {
    pub change_file_info: Option<ChangeFileInfo>,
    pub status: String,
    pub reject_upload: bool,
    pub http_response: Option<HttpResponse>,
}

pub open spec fn status_code_of(e: IngestError) -> u16 {
    match e {
        IngestError::Validation => 400,
        IngestError::Conflict => 409,
        IngestError::NotFound => 404,
        IngestError::StorageFailure => 500,
        IngestError::LedgerFailure => 500,
        IngestError::UnknownEvent => 400,
    }
}

/// Whether the proxy is told to abandon the upload.
pub open spec fn rejects(e: IngestError) -> bool {
    e == IngestError::Validation || e == IngestError::Conflict
}

pub open spec fn error_text(e: IngestError) -> Seq<char> {
    match e {
        IngestError::Validation => "Upload not allowed"@,
        IngestError::Conflict => "File already uploaded with this filename in this submission"@,
        IngestError::NotFound => "Upload not found"@,
        IngestError::StorageFailure => "Storage failure"@,
        IngestError::LedgerFailure => "Database failure"@,
        IngestError::UnknownEvent => "Unknown event type"@,
    }
}

/// The answer that an outcome gives.
pub open spec fn answers(r: Result<Ingested, IngestError>, resp: PreCreateResponse) -> bool {
    match r {
        Ok(out) => {
            &&& resp.status@ == "success"@
            &&& !resp.reject_upload
            &&& resp.http_response is None
            &&& match out.change_key {
                Some(k) => resp.change_file_info matches Some(c) && c.id@ == k@,
                None => resp.change_file_info is None,
            }
        },
        Err(e) => {
            &&& resp.status@ == "error"@
            &&& resp.reject_upload == rejects(e)
            &&& resp.change_file_info is None
            &&& resp.http_response matches Some(h) && (h.status_code == Some(status_code_of(e))
                && (h.body matches Some(b) && b@ == error_text(e)))
        },
    }
}

fn error_body(e: IngestError) -> (r: String)
    ensures
        r@ == error_text(e),
{
    match e {
        IngestError::Validation => String::from_str("Upload not allowed"),
        IngestError::Conflict => String::from_str("File already uploaded with this filename in this submission"),
        IngestError::NotFound => String::from_str("Upload not found"),
        IngestError::StorageFailure => String::from_str("Storage failure"),
        IngestError::LedgerFailure => String::from_str("Database failure"),
        IngestError::UnknownEvent => String::from_str("Unknown event type"),
    }
}

/// Builds the answer to the proxy for an outcome.
pub fn respond(r: &Result<Ingested, IngestError>) -> (resp: PreCreateResponse)
    ensures
        answers(*r, resp),
{
    match r {
        Ok(out) => PreCreateResponse {
            change_file_info: match &out.change_key {
                Some(k) => Some(ChangeFileInfo { id: k.clone() }),
                None => None,
            },
            status: String::from_str("success"),
            reject_upload: false,
            http_response: None,
        },
        Err(e) => {
            let code: u16 = match e {
                IngestError::Validation => 400,
                IngestError::Conflict => 409,
                IngestError::NotFound => 404,
                IngestError::StorageFailure => 500,
                IngestError::LedgerFailure => 500,
                IngestError::UnknownEvent => 400,
            };
            let reject = match e {
                IngestError::Validation => true,
                IngestError::Conflict => true,
                _ => false,
            };
            PreCreateResponse {
                change_file_info: None,
                status: String::from_str("error"),
                reject_upload: reject,
                http_response: Some(HttpResponse { status_code: Some(code), body: Some(error_body(*e)) }),
            }
        },
    }
}

} // verus!
