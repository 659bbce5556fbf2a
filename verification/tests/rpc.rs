use aura_core::rpc::{
    add_uri_sources, cli_task_type, daemon_task_type, next_index, parse_gid, parse_hex_color,
    phase_status, previous_index, rpc_method, task_status, RpcMethod, INVALID_PARAMS,
    METHOD_NOT_FOUND, SERVER_ERROR,
};
use aura_core::task::{DownloadPhase, MetaTask, TaskType};
use aura_core::TaskId;

#[test]
fn rpc_methods_and_unknown_ones() {
    assert_eq!(rpc_method("aria2.addUri").unwrap(), RpcMethod::AddUri);
    assert_eq!(rpc_method("aria2.tellActive").unwrap(), RpcMethod::TellActive);
    assert_eq!(rpc_method("aria2.pause").unwrap(), RpcMethod::Pause);
    assert_eq!(rpc_method("aria2.unpause").unwrap(), RpcMethod::Unpause);
    assert_eq!(rpc_method("aria2.remove").unwrap(), RpcMethod::Remove);
    let e = rpc_method("aria2.shutdown").unwrap_err();
    assert_eq!(e.code, METHOD_NOT_FOUND);
    assert_eq!(e.message, "Method not found");
    assert_eq!(INVALID_PARAMS, -32602);
    assert_eq!(SERVER_ERROR, -32000);
}

#[test]
fn source_types() {
    assert_eq!(daemon_task_type("http://x/a.torrent"), TaskType::BitTorrent);
    assert_eq!(daemon_task_type("ftp://x/a.iso"), TaskType::Http);
    assert_eq!(cli_task_type("ftp://x/a.iso"), TaskType::Ftp);
    assert_eq!(cli_task_type("ftps://x/a.iso"), TaskType::Ftp);
    assert_eq!(cli_task_type("file.torrent"), TaskType::BitTorrent);
    assert_eq!(cli_task_type("https://x/a.iso"), TaskType::Http);
}

#[test]
fn add_uri_needs_a_uri() {
    let e = add_uri_sources(&vec![]).unwrap_err();
    assert_eq!(e.code, INVALID_PARAMS);
    assert_eq!(e.message, "Empty URI list");
    let v = add_uri_sources(&vec!["http://a/x".to_string(), "http://a/y.torrent".to_string()]).unwrap();
    assert_eq!(v, vec![("http://a/x".to_string(), TaskType::Http), ("http://a/y.torrent".to_string(), TaskType::BitTorrent)]);
}

#[test]
fn gids_round_trip_through_status() {
    assert_eq!(parse_gid("42").unwrap(), TaskId(42));
    let e = parse_gid("4x2").unwrap_err();
    assert_eq!(e.code, INVALID_PARAMS);
    assert_eq!(e.message, "Invalid GID format");
    let mut t = MetaTask::new(TaskId(18446744073709551615), "iso".to_string(), 1000);
    t.completed_length = 250;
    t.phase = DownloadPhase::Downloading;
    let s = task_status(&t);
    assert_eq!(s.gid, "18446744073709551615");
    assert_eq!(parse_gid(&s.gid).unwrap(), TaskId(18446744073709551615));
    assert_eq!(s.status, "downloading");
    assert_eq!(s.total_length, "1000");
    assert_eq!(s.completed_length, "250");
    assert_eq!(s.name, "iso");
    assert_eq!(phase_status(DownloadPhase::MetadataExchange), "metadataexchange");
    assert_eq!(phase_status(DownloadPhase::Paused), "paused");
}

#[test]
fn list_selection_wraps() {
    assert_eq!(next_index(None, 3), 0);
    assert_eq!(next_index(Some(0), 3), 1);
    assert_eq!(next_index(Some(2), 3), 0);
    assert_eq!(next_index(Some(0), 0), 0);
    assert_eq!(previous_index(None, 3), 0);
    assert_eq!(previous_index(Some(0), 3), 2);
    assert_eq!(previous_index(Some(2), 3), 1);
    assert_eq!(previous_index(Some(0), 0), 0);
}

#[test]
fn theme_colours() {
    assert_eq!(parse_hex_color(Some("#FF8000")), Some((255, 128, 0)));
    assert_eq!(parse_hex_color(Some("00ff41")), Some((0, 255, 65)));
    assert_eq!(parse_hex_color(Some("#FF80")), None);
    assert_eq!(parse_hex_color(Some("#GG0000")), None);
    assert_eq!(parse_hex_color(None), None);
}
