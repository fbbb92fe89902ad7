use contribcard::deploy::{checksum, etag_checksum, index_needs_upload, object_key, plan_upload, regular_object, trim_start_matches, UploadPlan};

#[test]
fn object_keys_are_relative() {
    assert_eq!(object_key("/site/out/css/app.css", "/site/out"), "css/app.css");
    assert_eq!(object_key("/site/out//index.html", "/site/out"), "index.html");
    assert_eq!(object_key("other/file", "/site/out"), "other/file");
    assert_eq!(trim_start_matches("ababc", "ab"), "c");
    assert_eq!(trim_start_matches("abc", ""), "abc");
}

#[test]
fn index_and_hidden_files_are_not_regular() {
    assert!(!regular_object("index.html"));
    assert!(!regular_object(".keep"));
    assert!(regular_object("data/alice.json"));
}

#[test]
fn etags_lose_their_quotes() {
    assert_eq!(etag_checksum("\"d41d8cd98f00b204e9800998ecf8427e\""), "d41d8cd98f00b204e9800998ecf8427e");
    assert_eq!(etag_checksum("plain"), "plain");
    assert_eq!(etag_checksum("\"\""), "");
}

#[test]
fn checksums_are_md5_hex() {
    assert_eq!(checksum(&vec![]), "d41d8cd98f00b204e9800998ecf8427e");
    assert_eq!(checksum(&b"abc".to_vec()), "900150983cd24fb0d6963f7d28e17f72");
}

#[test]
fn upload_plans() {
    let sum = "900150983cd24fb0d6963f7d28e17f72";
    assert_eq!(plan_upload("index.html", sum, None), UploadPlan::Skip);
    assert_eq!(plan_upload(".hidden", sum, None), UploadPlan::Skip);
    assert_eq!(plan_upload("css/app.css", sum, Some(sum)), UploadPlan::Skip);
    assert_eq!(plan_upload("css/app.css", sum, None), UploadPlan::Upload("text/css".to_string()));
    assert_eq!(plan_upload("css/app.css", sum, Some("other")), UploadPlan::Upload("text/css".to_string()));
    assert_eq!(plan_upload("blob.unknownext", sum, None), UploadPlan::UnknownMediaType);
    assert!(index_needs_upload(sum, None));
    assert!(!index_needs_upload(sum, Some(sum)));
}
