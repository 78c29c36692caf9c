use connection_core::sideband::{
    file_name_of, plan_file_request, read_status, FileMethod, SidebandAction, SidebandStatus,
};
use connection_core::text::bytes_to_str;

#[test]
fn filename_is_last_component() {
    assert_eq!(file_name_of(&"/dir/bar.txt".to_string()), Some("bar.txt".to_string()));
    assert_eq!(file_name_of(&"plain".to_string()), Some("plain".to_string()));
    assert_eq!(file_name_of(&"/a/b/c".to_string()), Some("c".to_string()));
}

#[test]
fn filename_rejects_unusable_paths() {
    assert_eq!(file_name_of(&"".to_string()), None);
    assert_eq!(file_name_of(&"/".to_string()), None);
    assert_eq!(file_name_of(&"/dir/".to_string()), None);
    assert_eq!(file_name_of(&"/x/.".to_string()), None);
    assert_eq!(file_name_of(&"/x/..".to_string()), None);
    assert_eq!(file_name_of(&"/x/...".to_string()), Some("...".to_string()));
}

#[test]
fn request_decision_table() {
    assert_eq!(
        plan_file_request(FileMethod::Other, true, true),
        (SidebandStatus::MethodNotAllowed, SidebandAction::Reject)
    );
    assert_eq!(
        plan_file_request(FileMethod::Put, false, false),
        (SidebandStatus::BadRequest, SidebandAction::Reject)
    );
    assert_eq!(
        plan_file_request(FileMethod::Get, false, true),
        (SidebandStatus::BadRequest, SidebandAction::Reject)
    );
    assert_eq!(
        plan_file_request(FileMethod::Put, true, true),
        (SidebandStatus::Okay, SidebandAction::SaveUpload)
    );
    assert_eq!(
        plan_file_request(FileMethod::Put, true, false),
        (SidebandStatus::Created, SidebandAction::SaveUpload)
    );
    assert_eq!(
        plan_file_request(FileMethod::Get, true, false),
        (SidebandStatus::NotFound, SidebandAction::Reject)
    );
    assert_eq!(
        plan_file_request(FileMethod::Get, true, true),
        (SidebandStatus::Okay, SidebandAction::ServeFile)
    );
}

#[test]
fn status_codes() {
    assert_eq!(SidebandStatus::Okay.code(), 200);
    assert_eq!(SidebandStatus::Created.code(), 201);
    assert_eq!(SidebandStatus::BadRequest.code(), 400);
    assert_eq!(SidebandStatus::NotFound.code(), 404);
    assert_eq!(SidebandStatus::MethodNotAllowed.code(), 405);
    assert_eq!(SidebandStatus::InternalError.code(), 500);
    assert_eq!(read_status(true).code(), 200);
    assert_eq!(read_status(false).code(), 500);
}

#[test]
fn lossy_decoding_of_frames() {
    assert_eq!(bytes_to_str(&b"plain text".to_vec()), "plain text");
    assert_eq!(bytes_to_str(&"héllo".as_bytes().to_vec()), "héllo");
    // invalid UTF-8 is replaced, not handed back
    assert_eq!(bytes_to_str(&vec![0xff, b'a']), "\u{FFFD}a");
    assert_eq!(bytes_to_str(&Vec::new()), "");
}
