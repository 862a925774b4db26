//! Properties of the ingestion state machine that span ledger states or
//! several events.

use crate::config::UploadPolicy;
use crate::config::listed;
use crate::event::EventPayload;
use crate::event::header_submission;
use crate::ingest::Effect;
use crate::ingest::IngestError;
use crate::ingest::Ingested;
use crate::ingest::answers;
use crate::ingest::cascade_spec;
use crate::ingest::pre_create_applied;
use crate::ingest::pre_create_error;
use crate::ingest::pre_create_spec;
use crate::ingest::touch_spec;
use crate::ingest::PreCreateResponse;
use crate::ledger::lemma_no_dup_remove;
use crate::ledger::Ledger;
use crate::text::extension;
use vstd::prelude::*;

verus! {

broadcast use vstd::seq_lib::group_filter_ensures;

/// A well-formed ledger holds at most one complete object of a given filename
/// in a given submission. Every handler keeps the ledger well-formed.
pub proof fn lemma_one_complete_per_filename(l: Ledger, s: u128, f: Seq<char>, i: int, j: int)
    requires
        l.wf(),
        0 <= i < l.objects().len(),
        0 <= j < l.objects().len(),
        l.objects()[i].complete(),
        l.objects()[j].complete(),
        l.objects()[i].filename@ == f,
        l.objects()[j].filename@ == f,
        l.linked(l.objects()[i].id, s),
        l.linked(l.objects()[j].id, s),
    ensures
        i == j,
{
    assert(l.holds_slot(s, f, i));
    assert(l.holds_slot(s, f, j));
}

/// A progress or finish event for an object that is already complete
/// changes nothing and yields no effect.
pub proof fn lemma_complete_object_is_fixed(
    old: Ledger,
    new: Ledger,
    id: u128,
    message: Seq<char>,
    now: i64,
    complete: bool,
    r: Result<Ingested, IngestError>,
)
    requires
        old.object_of(id) matches Some(o) && o.complete(),
        touch_spec(old, new, Some(id), message, now, complete, true, r),
    ensures
        new == old,
        r matches Ok(out) && out.effects@.len() == 0,
{
}

/// Once an object is complete, a re-delivered progress or finish event for it
/// changes nothing and yields no effect.
pub proof fn lemma_redelivery_after_completion(
    l0: Ledger,
    l1: Ledger,
    l2: Ledger,
    id: u128,
    t1: i64,
    message: Seq<char>,
    t2: i64,
    complete: bool,
    r1: Result<Ingested, IngestError>,
    r2: Result<Ingested, IngestError>,
)
    requires
        l0.wf(),
        l1.wf(),
        touch_spec(l0, l1, Some(id), "Upload completed"@, t1, true, true, r1),
        r1 is Ok,
        touch_spec(l1, l2, Some(id), message, t2, complete, true, r2),
    ensures
        l1.object_of(id) matches Some(o) && o.complete(),
        l2 == l1,
        r2 matches Ok(out) && out.effects@.len() == 0,
{
    let i = l0.index_of(id);
    assert(l0.objects()[i].id == id);
    assert(l1.objects()[i].id == id);
    assert(l1.has_object(id));
    let k = l1.index_of(id);
    assert(l1.objects()[k].id == id);
    assert(k == i);
}

/// A creation that reclaims the incomplete object `x` deletes its blob and
/// its associations before its row, and all three before the new row is
/// inserted.
pub proof fn lemma_reclaim_order(
    old: Ledger,
    new: Ledger,
    p: UploadPolicy,
    e: EventPayload,
    id: u128,
    now: i64,
    out: Ingested,
)
    requires
        pre_create_applied(old, new, p, e, id, now, out),
        old.slot(
            header_submission(e.event.http_request.header.submission_id)->Some_0,
            e.event.upload.metadata.filename@,
        ) is Some,
    ensures
        ({
            let x = old.slot(
                header_submission(e.event.http_request.header.submission_id)->Some_0,
                e.event.upload.metadata.filename@,
            )->Some_0;
            &&& out.effects@.len() == 5
            &&& out.effects@[0] == Effect::DeleteBlob(x.id)
            &&& out.effects@[1] == Effect::DeleteAssociations(x.id)
            &&& out.effects@[2] == Effect::DeleteRow(x.id)
            &&& out.effects@[3] matches Effect::InsertRow(n) && n.id == id
            &&& out.effects@[4] matches Effect::InsertAssociation(a) && a.input_object_id == id
        }),
{
}

/// A creation for a filename that the submission already holds complete is
/// refused with a conflict, leaves the ledger as it was, and tells the proxy
/// to abandon the upload.
pub proof fn lemma_complete_rejects(
    old: Ledger,
    new: Ledger,
    p: UploadPolicy,
    e: EventPayload,
    id: u128,
    now: i64,
    r: Result<Ingested, IngestError>,
    resp: PreCreateResponse,
)
    requires
        pre_create_spec(old, new, p, e, id, now, r),
        answers(r, resp),
        header_submission(e.event.http_request.header.submission_id) matches Some(s) && old.has_submission(s)
            && (old.slot(s, e.event.upload.metadata.filename@) matches Some(o) && o.complete()),
        listed(p.allowed_content_types@, e.event.upload.metadata.filetype@),
        listed(p.allowed_extensions@, extension(e.event.upload.metadata.filename@)),
    ensures
        r == Err::<Ingested, IngestError>(IngestError::Conflict),
        new == old,
        resp.reject_upload,
{
    assert(pre_create_error(old, p, e, id) == Some(IngestError::Conflict));
}

/// Deleting a submission leaves none of its objects, no association of
/// them, and not the submission; its row is the last effect, after every
/// object's deletions.
pub proof fn lemma_cascade_complete(old: Ledger, new: Ledger, s: u128, r: Result<Ingested, IngestError>)
    requires
        old.wf(),
        old.has_submission(s),
        cascade_spec(old, new, s, r),
    ensures
        forall|x: u128| old.linked(x, s) ==> !new.has_object(x) && !new.referenced(x),
        !new.has_submission(s),
        r matches Ok(out) && out.effects@.last() == Effect::DeleteSubmission(s),
{
    let outside = old.outside_submission(s);
    let keep = old.link_outside(s);
    assert forall|x: u128| old.linked(x, s) implies !new.has_object(x) && !new.referenced(x) by {
        if new.has_object(x) {
            let k = choose|k: int| 0 <= k < new.objects().len() && #[trigger] new.objects()[k].id == x;
            assert(outside(old.objects().filter(outside)[k]));
        }
        if new.referenced(x) {
            let k = choose|k: int| 0 <= k < new.associations().len() && #[trigger] new.associations()[k].input_object_id == x;
            assert(keep(old.associations().filter(keep)[k]));
        }
    }
    let si = old.submission_index(s);
    assert(old.submissions()[si] == s);
    lemma_no_dup_remove(old.submissions(), si);
}

} // verus!
