use localhost::lookup::{
    delete_step, index_step, listing_outcome, lookup_step, path_climbs_out, read_outcome,
    removal_outcome, unresolved_probe, LookupStep, PathProbe, RemovalResult,
};
use localhost::replies::DeleteOutcome;
use localhost::server_config::ServerConfig;
use localhost::static_file::{DirEntry, FileResponse};

#[test]
fn lookup_of_missing_path_is_not_found() {
    for has_index in [false, true] {
        for listing in [false, true] {
            assert!(matches!(
                lookup_step(PathProbe::Missing, has_index, listing),
                LookupStep::Done(FileResponse::NotFound)
            ));
        }
    }
}

#[test]
fn lookup_outside_root_is_forbidden_whatever_the_route_offers() {
    for has_index in [false, true] {
        for listing in [false, true] {
            assert!(matches!(
                lookup_step(PathProbe::Outside, has_index, listing),
                LookupStep::Done(FileResponse::Forbidden)
            ));
        }
    }
    assert_eq!(delete_step(PathProbe::Outside), Some(DeleteOutcome::Forbidden));
}

#[test]
fn lookup_of_file_reads_it() {
    assert!(matches!(lookup_step(PathProbe::File, true, true), LookupStep::ReadFile));
    assert!(matches!(lookup_step(PathProbe::File, false, false), LookupStep::ReadFile));
    assert!(matches!(read_outcome(Some(b"abc".to_vec())), FileResponse::Found(bytes) if bytes == b"abc"));
    assert!(matches!(read_outcome(None), FileResponse::NotFound));
}

#[test]
fn lookup_of_directory_prefers_index_then_listing() {
    assert!(matches!(lookup_step(PathProbe::Directory, true, false), LookupStep::ProbeIndex));
    assert!(matches!(lookup_step(PathProbe::Directory, true, true), LookupStep::ProbeIndex));
    assert!(matches!(lookup_step(PathProbe::Directory, false, true), LookupStep::ListDirectory));
    assert!(matches!(
        lookup_step(PathProbe::Directory, false, false),
        LookupStep::Done(FileResponse::Forbidden)
    ));
    assert!(matches!(index_step(true, false), LookupStep::ReadIndex));
    assert!(matches!(index_step(true, true), LookupStep::ReadIndex));
    assert!(matches!(index_step(false, true), LookupStep::ListDirectory));
    assert!(matches!(index_step(false, false), LookupStep::Done(FileResponse::Forbidden)));
}

#[test]
fn listing_outcome_renders_entries() {
    let entries = vec![DirEntry { name: "d".to_string(), is_dir: true }];
    match listing_outcome(&entries) {
        FileResponse::DirectoryListing(html) => assert_eq!(
            html,
            "<html><body><h1>Directory listing</h1><ul><li><a href=\"d/\">d/</a></li></ul></body></html>"
        ),
        other => panic!("{:?}", other),
    }
}

#[test]
fn delete_is_decided_by_probe_unless_it_is_a_file() {
    assert_eq!(delete_step(PathProbe::Missing), Some(DeleteOutcome::Missing));
    assert_eq!(delete_step(PathProbe::Directory), Some(DeleteOutcome::Forbidden));
    assert_eq!(delete_step(PathProbe::File), None);
    assert_eq!(removal_outcome(RemovalResult::Removed), DeleteOutcome::Removed);
    assert_eq!(removal_outcome(RemovalResult::NotFound), DeleteOutcome::Missing);
    assert_eq!(removal_outcome(RemovalResult::Failed), DeleteOutcome::Failed);
}

#[test]
fn custom_page_is_looked_up_by_status_code() {
    let mut config = ServerConfig {
        server_name: "s".to_string(),
        server_address: Vec::new(),
        max_body_size: 0,
        router: Vec::new(),
        error_msg: std::collections::HashMap::new(),
    };
    assert_eq!(config.custom_page(404), None);
    config.error_msg.insert(404, "Not Found".to_string());
    assert_eq!(config.custom_page(404).map(|s| s.as_str()), Some("Not Found"));
    assert_eq!(config.custom_page(500), None);
}

#[test]
fn path_that_climbs_out_of_the_root() {
    for path in ["..", "../x", "a/../..", "a/../../etc/passwd", "./../x", "a//../../x", "../"] {
        assert!(path_climbs_out(path), "{}", path);
        assert_eq!(unresolved_probe(path), PathProbe::Outside);
    }
    for path in ["", "a", "a/..", "a/../b", "a/b/../..", "./a", "...", "a/..b", "..a", "a/./.."] {
        assert!(!path_climbs_out(path), "{}", path);
        assert_eq!(unresolved_probe(path), PathProbe::Missing);
    }
}

#[test]
fn unresolved_path_outside_root_is_forbidden_not_missing() {
    assert!(matches!(
        lookup_step(unresolved_probe("../../nothing/here"), true, true),
        LookupStep::Done(FileResponse::Forbidden)
    ));
    assert_eq!(delete_step(unresolved_probe("../../nothing/here")), Some(DeleteOutcome::Forbidden));
    assert!(matches!(
        lookup_step(unresolved_probe("nothing/here"), true, true),
        LookupStep::Done(FileResponse::NotFound)
    ));
}
