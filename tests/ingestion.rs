use labcaller::config::UploadPolicy;
use labcaller::event::{EventDetails, EventPayload, EventType, Header, HttpRequest, MetaData, Upload};
use labcaller::ids::{id_text, object_id_from_handle};
use labcaller::ingest::{respond, Effect, IngestError};
use labcaller::ledger::{Ledger, LedgerError};

const SUB: u128 = 0x1111_2222_3333_4444_5555_6666_7777_8888;
const OBJ: u128 = 0xa1a2a3a4_b1b2_c1c2_d1d2_d3d4d5d6d7d8;
const OBJ2: u128 = 0x0102_0304_0506_0708_090a_0b0c_0d0e_0f10;

fn policy() -> UploadPolicy {
    UploadPolicy::standard("labcaller-dev".to_string())
}

fn payload(kind: EventType, filename: &str, filetype: &str, sub: Option<u128>, handle: &str, offset: u64, size: i64) -> EventPayload {
    let mut header = Header::empty();
    header.submission_id = sub.map(|s| vec![id_text(s)]);
    let mut upload = Upload::default();
    upload.id = handle.to_string();
    upload.metadata = MetaData { filename: filename.to_string(), filetype: filetype.to_string(), ..MetaData::default() };
    upload.offset = offset;
    upload.size = size;
    EventPayload {
        event: EventDetails {
            http_request: HttpRequest { header, method: "POST".to_string(), remote_addr: String::new(), uri: "/files".to_string() },
            upload,
        },
        event_type: kind,
    }
}

fn handle_of(id: u128) -> String {
    format!("{}+proxy0001", id_text(id))
}

fn ledger_with_submission() -> Ledger {
    let mut l = Ledger::new();
    l.add_submission(SUB).unwrap();
    l
}

fn create(l: &mut Ledger, id: u128, name: &str) -> Result<labcaller::ingest::Ingested, IngestError> {
    let p = payload(EventType::PreCreate, name, "application/octet-stream", Some(SUB), "", 0, 1000);
    l.pre_create(&policy(), &p, id, 100)
}

fn finish(l: &mut Ledger, id: u128) {
    let p = payload(EventType::PostFinish, "", "", None, &handle_of(id), 1000, 1000);
    l.post_finish(&p, 300).unwrap();
}

#[test]
fn pre_create_records_new_upload() {
    let mut l = ledger_with_submission();
    let out = create(&mut l, OBJ, "run1.pod5").unwrap();
    let key = out.change_key.unwrap();
    assert_eq!(key, "labcaller-dev/a1a2a3a4-b1b2-c1c2-d1d2-d3d4d5d6d7d8");
    assert!(key.ends_with(&id_text(OBJ)));
    assert_eq!(l.object_count(), 1);
    assert_eq!(l.association_count(), 1);
    assert!(l.is_linked(OBJ, SUB));
    let o = l.find_file_object(OBJ).unwrap();
    assert!(!o.all_parts_received());
    assert_eq!(o.filename, "run1.pod5");
    assert_eq!(o.size_bytes, 1000);
    assert_eq!(o.created_on, 100);
    assert_eq!(o.last_part_received, Some(100));
    assert_eq!(o.processing_message.as_deref(), Some("Upload initiated"));
    assert_eq!(out.effects.len(), 2);
    assert!(matches!(&out.effects[0], Effect::InsertRow(r) if r.id == OBJ));
    assert!(matches!(&out.effects[1], Effect::InsertAssociation(a) if a.input_object_id == OBJ && a.submission_id == SUB));
}

#[test]
fn post_receive_reports_progress() {
    let mut l = ledger_with_submission();
    create(&mut l, OBJ, "run1.pod5").unwrap();
    let p = payload(EventType::PostReceive, "", "", None, &handle_of(OBJ), 500, 1000);
    let out = l.post_receive(&p, 200).unwrap();
    let o = l.find_file_object(OBJ).unwrap();
    assert_eq!(o.processing_message.as_deref(), Some("Upload progress: 50.00%"));
    assert_eq!(o.last_part_received, Some(200));
    assert!(!o.all_parts_received());
    assert!(matches!(&out.effects[0], Effect::UpdateRow(r) if r.id == OBJ));
}

#[test]
fn pre_create_refuses_disallowed_extension() {
    let mut l = ledger_with_submission();
    let r = create(&mut l, OBJ, "run1.txt");
    assert!(matches!(r, Err(IngestError::Validation)));
    assert_eq!(l.object_count(), 0);
    assert_eq!(l.association_count(), 0);
    let resp = respond(&r);
    assert!(resp.reject_upload);
    assert_eq!(resp.http_response.unwrap().status_code, Some(400));
}

#[test]
fn pre_create_refuses_disallowed_content_type() {
    let mut l = ledger_with_submission();
    let p = payload(EventType::PreCreate, "run1.pod5", "text/plain", Some(SUB), "", 0, 10);
    assert!(matches!(l.pre_create(&policy(), &p, OBJ, 1), Err(IngestError::Validation)));
    assert_eq!(l.object_count(), 0);
}

#[test]
fn pre_create_requires_submission_header() {
    let mut l = ledger_with_submission();
    let p = payload(EventType::PreCreate, "run1.pod5", "application/octet-stream", None, "", 0, 10);
    assert!(matches!(l.pre_create(&policy(), &p, OBJ, 1), Err(IngestError::Validation)));
    let mut p2 = payload(EventType::PreCreate, "run1.pod5", "application/octet-stream", None, "", 0, 10);
    p2.event.http_request.header.submission_id = Some(vec!["not-a-uuid".to_string()]);
    assert!(matches!(l.pre_create(&policy(), &p2, OBJ, 1), Err(IngestError::Validation)));
    assert_eq!(l.object_count(), 0);
}

#[test]
fn pre_create_unknown_submission_is_not_found() {
    let mut l = Ledger::new();
    assert!(matches!(create(&mut l, OBJ, "run1.pod5"), Err(IngestError::NotFound)));
    assert_eq!(l.object_count(), 0);
}

#[test]
fn pre_create_with_id_in_use_fails() {
    let mut l = ledger_with_submission();
    create(&mut l, OBJ, "a.pod5").unwrap();
    assert!(matches!(create(&mut l, OBJ, "b.pod5"), Err(IngestError::LedgerFailure)));
    assert_eq!(l.object_count(), 1);
}

#[test]
fn complete_file_rejects_second_upload() {
    let mut l = ledger_with_submission();
    create(&mut l, OBJ, "a.pod5").unwrap();
    finish(&mut l, OBJ);
    let r = create(&mut l, OBJ2, "a.pod5");
    assert!(matches!(r, Err(IngestError::Conflict)));
    assert_eq!(l.object_count(), 1);
    assert_eq!(l.association_count(), 1);
    assert!(l.find_file_object(OBJ2).is_none());
    let resp = respond(&r);
    assert!(resp.reject_upload);
    assert_eq!(resp.status, "error");
    let h = resp.http_response.unwrap();
    assert_eq!(h.status_code, Some(409));
    assert_eq!(h.body.as_deref(), Some("File already uploaded with this filename in this submission"));
}

#[test]
fn single_complete_file_per_name() {
    let mut l = ledger_with_submission();
    create(&mut l, OBJ, "a.pod5").unwrap();
    finish(&mut l, OBJ);
    let _ = create(&mut l, OBJ2, "a.pod5");
    let complete = [OBJ, OBJ2]
        .iter()
        .filter(|id| l.find_file_object(**id).map(|o| o.all_parts_received()).unwrap_or(false))
        .count();
    assert_eq!(complete, 1);
}

#[test]
fn reclaim_deletes_blob_and_links_before_row() {
    let mut l = ledger_with_submission();
    create(&mut l, OBJ, "a.pod5").unwrap();
    let out = create(&mut l, OBJ2, "a.pod5").unwrap();
    assert_eq!(out.effects.len(), 5);
    assert!(matches!(out.effects[0], Effect::DeleteBlob(x) if x == OBJ));
    assert!(matches!(out.effects[1], Effect::DeleteAssociations(x) if x == OBJ));
    assert!(matches!(out.effects[2], Effect::DeleteRow(x) if x == OBJ));
    assert!(matches!(&out.effects[3], Effect::InsertRow(r) if r.id == OBJ2));
    assert!(matches!(&out.effects[4], Effect::InsertAssociation(a) if a.input_object_id == OBJ2));
    assert!(l.find_file_object(OBJ).is_none());
    assert!(!l.is_linked(OBJ, SUB));
    assert!(l.is_linked(OBJ2, SUB));
    assert_eq!(l.object_count(), 1);
    assert_eq!(l.association_count(), 1);
}

#[test]
fn redelivered_events_after_completion_change_nothing() {
    let mut l = ledger_with_submission();
    create(&mut l, OBJ, "a.pod5").unwrap();
    finish(&mut l, OBJ);
    let before = l.find_file_object(OBJ).unwrap();
    assert!(before.all_parts_received());
    assert_eq!(before.processing_message.as_deref(), Some("Upload completed"));
    let again = payload(EventType::PreFinish, "", "", None, &handle_of(OBJ), 1000, 1000);
    let out = l.pre_finish(&again, 999).unwrap();
    assert!(out.effects.is_empty());
    let late = payload(EventType::PostReceive, "", "", None, &handle_of(OBJ), 10, 1000);
    let out = l.post_receive(&late, 1000).unwrap();
    assert!(out.effects.is_empty());
    let after = l.find_file_object(OBJ).unwrap();
    assert!(after.all_parts_received());
    assert_eq!(after.processing_message.as_deref(), Some("Upload completed"));
    assert_eq!(after.last_part_received, before.last_part_received);
    assert_eq!(after.filename, before.filename);
}

#[test]
fn deleting_submission_cascades() {
    let mut l = ledger_with_submission();
    create(&mut l, OBJ, "a.pod5").unwrap();
    create(&mut l, OBJ2, "b.pod5").unwrap();
    let out = l.delete_submission(SUB).unwrap();
    assert_eq!(l.object_count(), 0);
    assert_eq!(l.association_count(), 0);
    assert!(!l.contains_submission(SUB));
    assert_eq!(out.effects.len(), 7);
    assert!(matches!(out.effects[0], Effect::DeleteAssociations(x) if x == OBJ));
    assert!(matches!(out.effects[1], Effect::DeleteBlob(x) if x == OBJ));
    assert!(matches!(out.effects[2], Effect::DeleteRow(x) if x == OBJ));
    assert!(matches!(out.effects[3], Effect::DeleteAssociations(x) if x == OBJ2));
    assert!(matches!(out.effects[5], Effect::DeleteRow(x) if x == OBJ2));
    assert!(matches!(out.effects[6], Effect::DeleteSubmission(s) if s == SUB));
    assert!(matches!(l.delete_submission(SUB), Err(IngestError::NotFound)));
}

#[test]
fn deleting_object_orders_links_blob_row() {
    let mut l = ledger_with_submission();
    create(&mut l, OBJ, "a.pod5").unwrap();
    let out = l.delete_object(OBJ).unwrap();
    assert!(matches!(out.effects[0], Effect::DeleteAssociations(x) if x == OBJ));
    assert!(matches!(out.effects[1], Effect::DeleteBlob(x) if x == OBJ));
    assert!(matches!(out.effects[2], Effect::DeleteRow(x) if x == OBJ));
    assert_eq!(l.object_count(), 0);
    assert!(matches!(l.delete_object(OBJ), Err(IngestError::NotFound)));
}

#[test]
fn terminate_keeps_blob_unless_asked() {
    let mut l = ledger_with_submission();
    create(&mut l, OBJ, "a.pod5").unwrap();
    let p = payload(EventType::PostTerminate, "", "", None, &handle_of(OBJ), 0, 0);
    let out = l.post_terminate(&policy(), &p).unwrap();
    assert_eq!(out.effects.len(), 2);
    assert!(matches!(out.effects[0], Effect::DeleteAssociations(x) if x == OBJ));
    assert!(matches!(out.effects[1], Effect::DeleteRow(x) if x == OBJ));
    assert_eq!(l.object_count(), 0);
    assert_eq!(l.association_count(), 0);

    create(&mut l, OBJ2, "a.pod5").unwrap();
    let mut pol = policy();
    pol.delete_blob_on_terminate = true;
    let p2 = payload(EventType::PostTerminate, "", "", None, &handle_of(OBJ2), 0, 0);
    let out = l.post_terminate(&pol, &p2).unwrap();
    assert_eq!(out.effects.len(), 3);
    assert!(matches!(out.effects[1], Effect::DeleteBlob(x) if x == OBJ2));
}

#[test]
fn post_create_marks_started() {
    let mut l = ledger_with_submission();
    create(&mut l, OBJ, "a.pod5").unwrap();
    let p = payload(EventType::PostCreate, "", "", None, &handle_of(OBJ), 0, 1000);
    l.post_create(&p, 150).unwrap();
    let o = l.find_file_object(OBJ).unwrap();
    assert_eq!(o.processing_message.as_deref(), Some("Upload started"));
    assert_eq!(o.last_part_received, Some(150));
    assert!(!o.all_parts_received());
}

#[test]
fn events_for_unknown_objects_are_not_found() {
    let mut l = ledger_with_submission();
    let p = payload(EventType::PostCreate, "", "", None, &handle_of(OBJ), 0, 1000);
    assert!(matches!(l.post_create(&p, 1), Err(IngestError::NotFound)));
    let bad = payload(EventType::PostReceive, "", "", None, "garbage+proxy", 0, 1000);
    assert!(matches!(l.post_receive(&bad, 1), Err(IngestError::NotFound)));
    let r = l.post_terminate(&policy(), &bad);
    assert!(matches!(r, Err(IngestError::NotFound)));
    let resp = respond(&r);
    assert!(!resp.reject_upload);
    assert_eq!(resp.http_response.unwrap().status_code, Some(404));
}

#[test]
fn dispatch_follows_event_kind() {
    let mut l = ledger_with_submission();
    let p = payload(EventType::PreCreate, "run1.pod5", "application/octet-stream", Some(SUB), "", 0, 1000);
    let out = l.handle_event(&policy(), &p, OBJ, 5).unwrap();
    let resp = respond(&Ok(out));
    assert_eq!(resp.status, "success");
    assert!(!resp.reject_upload);
    assert!(resp.http_response.is_none());
    assert_eq!(resp.change_file_info.unwrap().id, "labcaller-dev/a1a2a3a4-b1b2-c1c2-d1d2-d3d4d5d6d7d8");

    let unknown = payload(EventType::Unknown, "", "", None, &handle_of(OBJ), 0, 0);
    let r = l.handle_event(&policy(), &unknown, OBJ2, 6);
    assert!(matches!(r, Err(IngestError::UnknownEvent)));
    let resp = respond(&r);
    assert_eq!(resp.http_response.unwrap().status_code, Some(400));
    assert!(!resp.reject_upload);
    assert_eq!(l.object_count(), 1);
}

#[test]
fn dispatch_with_clock_and_random_id() {
    let mut l = ledger_with_submission();
    let p = payload(EventType::PreCreate, "run1.pod5", "application/octet-stream", Some(SUB), "", 0, 1000);
    let out = l.handle_event_now(&policy(), &p).unwrap();
    assert_eq!(l.object_count(), 1);
    assert!(out.change_key.unwrap().starts_with("labcaller-dev/"));
}

#[test]
fn event_kinds_by_name() {
    assert_eq!(EventType::from_name("pre-create"), EventType::PreCreate);
    assert_eq!(EventType::from_name("post-receive"), EventType::PostReceive);
    assert_eq!(EventType::from_name("post-create"), EventType::PostCreate);
    assert_eq!(EventType::from_name("pre-finish"), EventType::PreFinish);
    assert_eq!(EventType::from_name("post-finish"), EventType::PostFinish);
    assert_eq!(EventType::from_name("post-terminate"), EventType::PostTerminate);
    assert_eq!(EventType::from_name("pre-terminate"), EventType::Unknown);
    assert_eq!(EventType::from_name(""), EventType::Unknown);
}

#[test]
fn handle_resolves_object_id() {
    assert_eq!(object_id_from_handle("a1a2a3a4-b1b2-c1c2-d1d2-d3d4d5d6d7d8+abc"), Some(OBJ));
    assert_eq!(object_id_from_handle("a1a2a3a4-b1b2-c1c2-d1d2-d3d4d5d6d7d8"), Some(OBJ));
    assert_eq!(object_id_from_handle("a1a2a3a4b1b2c1c2d1d2d3d4d5d6d7d8+x+y"), Some(OBJ));
    assert_eq!(object_id_from_handle("+a1a2a3a4-b1b2-c1c2-d1d2-d3d4d5d6d7d8"), None);
    assert_eq!(object_id_from_handle("nonsense+abc"), None);
}

#[test]
fn ledger_refusals() {
    let mut l = ledger_with_submission();
    assert_eq!(l.add_submission(SUB), Err(LedgerError::Duplicate));
    create(&mut l, OBJ, "a.pod5").unwrap();
    assert_eq!(l.delete_file_object(OBJ), Err(LedgerError::StillReferenced));
    assert_eq!(l.delete_file_object(OBJ2), Err(LedgerError::NotFound));
    assert_eq!(l.insert_association(OBJ, SUB), Err(LedgerError::Duplicate));
    assert_eq!(l.insert_association(OBJ2, SUB), Err(LedgerError::NotFound));
    let other = l.find_file_object(OBJ).map(|mut o| {
        o.id = OBJ2;
        o
    });
    l.insert_file_object(other.unwrap()).unwrap();
    assert_eq!(l.insert_association(OBJ2, SUB), Err(LedgerError::FilenameTaken));
    let dup = l.find_file_object(OBJ2).unwrap();
    assert_eq!(l.insert_file_object(dup), Err(LedgerError::Duplicate));
    assert_eq!(l.update_file_object(7, "x".to_string(), 1, true), Err(LedgerError::NotFound));
    assert_eq!(l.find_by_submission_and_filename(SUB, &"a.pod5".to_string()).len(), 1);
    assert_eq!(l.find_by_submission_and_filename(SUB, &"b.pod5".to_string()).len(), 0);
    l.delete_associations_for_object(OBJ);
    assert_eq!(l.association_count(), 0);
    assert_eq!(l.delete_file_object(OBJ), Ok(()));
}
