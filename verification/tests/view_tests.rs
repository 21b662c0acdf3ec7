use rolling_reboot::app::App;
use rolling_reboot::command::{
    reboot_launch_error, reboot_outcome, verify_outcome, RebootConfig, MS_PER_SEC, SECS_PER_MINUTE,
};
use rolling_reboot::server::{Server, ServerStatus};
use rolling_reboot::view::{
    footer_message, header_summary, server_label, status_text, table_rows, FooterKind,
};

fn with(name: &str, port: u16, status: ServerStatus, started_at: Option<u64>) -> Server {
    let mut s = Server::new(name.to_string(), port);
    s.status = status;
    s.started_at = started_at;
    s
}

#[test]
fn display_text_of_each_status() {
    assert_eq!(ServerStatus::Pending.display_text(), "Pending");
    assert_eq!(ServerStatus::Rebooting.display_text(), "Rebooting");
    assert_eq!(ServerStatus::Verifying.display_text(), "Verifying");
    assert_eq!(ServerStatus::Success.display_text(), "Success");
    assert_eq!(ServerStatus::Failed("timeout".to_string()).display_text(), "Failed: timeout");
}

#[test]
fn status_text_shows_elapsed_seconds() {
    assert_eq!(status_text(&ServerStatus::Rebooting, Some(1_000), 13_999), "Rebooting (12s)");
    assert_eq!(status_text(&ServerStatus::Verifying, Some(0), 125_000), "Verifying (125s)");
    assert_eq!(status_text(&ServerStatus::Rebooting, None, 5_000), "Rebooting");
    assert_eq!(status_text(&ServerStatus::Verifying, Some(9_000), 1_000), "Verifying (0s)");
    assert_eq!(status_text(&ServerStatus::Pending, Some(0), 5_000), "Pending");
    assert_eq!(status_text(&ServerStatus::Success, Some(0), 5_000), "Success");
    assert_eq!(status_text(&ServerStatus::Failed("timeout".to_string()), None, 0), "FAILED: timeout");
}

#[test]
fn label_shows_port_unless_usual() {
    assert_eq!(server_label(&Server::new("web01".to_string(), 22)), "web01");
    assert_eq!(server_label(&Server::new("web03".to_string(), 2222)), "web03:2222");
    assert_eq!(server_label(&Server::new("x".to_string(), 0)), "x:0");
}

#[test]
fn label_parses_back() {
    for (name, port) in [("web03", 2222u16), ("a:b", 5), ("", 65535), ("web01", 22)] {
        let label = server_label(&Server::new(name.to_string(), port));
        let back = Server::parse(&label, 22);
        assert_eq!((back.name.as_str(), back.port), (name, port));
    }
}

#[test]
fn table_sorted_by_status_then_name() {
    let servers = vec![
        with("web02", 22, ServerStatus::Pending, None),
        with("web01", 2222, ServerStatus::Success, Some(0)),
        with("db01", 22, ServerStatus::Verifying, Some(0)),
        with("zz", 22, ServerStatus::Failed("timeout".to_string()), Some(0)),
        with("app", 22, ServerStatus::Rebooting, Some(2_000)),
        with("web01", 22, ServerStatus::Pending, None),
        with("Web00", 22, ServerStatus::Pending, None),
    ];
    let rows = table_rows(&servers, 10_000);
    let order: Vec<usize> = rows.iter().map(|r| r.index).collect();
    assert_eq!(order, vec![3, 4, 2, 1, 6, 5, 0]);
    let labels: Vec<&str> = rows.iter().map(|r| r.label.as_str()).collect();
    assert_eq!(labels, vec!["zz", "app", "db01", "web01:2222", "Web00", "web01", "web02"]);
    let texts: Vec<&str> = rows.iter().map(|r| r.status.as_str()).collect();
    assert_eq!(
        texts,
        vec!["FAILED: timeout", "Rebooting (8s)", "Verifying (10s)", "Success", "Pending", "Pending", "Pending"]
    );
}

#[test]
fn table_keeps_order_of_equal_rows() {
    let servers = vec![
        with("same", 22, ServerStatus::Pending, None),
        with("same", 23, ServerStatus::Pending, None),
        with("same", 24, ServerStatus::Pending, None),
    ];
    let order: Vec<usize> = table_rows(&servers, 0).iter().map(|r| r.index).collect();
    assert_eq!(order, vec![0, 1, 2]);
}

#[test]
fn table_of_no_servers() {
    assert!(table_rows(&Vec::new(), 0).is_empty());
}

fn app(statuses: Vec<ServerStatus>, finished: bool, stopped: bool) -> App {
    App {
        servers: statuses.into_iter().enumerate().map(|(i, s)| with(&format!("s{i}"), 22, s, None)).collect(),
        concurrency: 2,
        finished,
        stopped,
    }
}

#[test]
fn header_counts_and_label() {
    let a = app(
        vec![
            ServerStatus::Success,
            ServerStatus::Failed("x".to_string()),
            ServerStatus::Rebooting,
            ServerStatus::Verifying,
            ServerStatus::Pending,
        ],
        false,
        false,
    );
    let h = header_summary(&a);
    assert_eq!((h.total, h.done, h.failed, h.active, h.concurrency), (5, 1, 1, 2, 2));
    assert_eq!(h.completed(), 2);
    assert_eq!(h.label(), "1/5 complete | 2 active | 1 failed | concurrency: 2");
}

#[test]
fn footer_messages() {
    let f = footer_message(&app(vec![ServerStatus::Failed("x".to_string()), ServerStatus::Failed("y".to_string())], true, false));
    assert_eq!(f.kind, FooterKind::FinishedWithFailures);
    assert_eq!(f.text, " Finished with 2 failure(s). Press 'q' to exit. ");
    let f = footer_message(&app(vec![ServerStatus::Success], true, false));
    assert_eq!(f.kind, FooterKind::AllSucceeded);
    assert_eq!(f.text, " All servers rebooted successfully. Press 'q' to exit. ");
    let f = footer_message(&app(vec![ServerStatus::Pending], false, true));
    assert_eq!(f.kind, FooterKind::Stopped);
    assert_eq!(f.text, " Stopped due to failure. Press 'q' to exit. ");
    let f = footer_message(&app(vec![ServerStatus::Pending], false, false));
    assert_eq!(f.kind, FooterKind::InProgress);
    assert_eq!(f.text, " Press 'q' to abort | Rolling reboot in progress... ");
}

fn config(verify: Option<&str>) -> RebootConfig {
    RebootConfig::new("admin".to_string(), 20, verify.map(|s| s.to_string()))
}

#[test]
fn config_timeout_in_milliseconds() {
    let c = config(None);
    assert_eq!(c.timeout_secs, 20 * 60);
    assert_eq!(c.timeout_ms(), 20 * 60_000);
    assert_eq!((SECS_PER_MINUTE, MS_PER_SEC), (60, 1_000));
    let big = RebootConfig::new("u".to_string(), u64::MAX / 60, None);
    assert_eq!(big.timeout_ms(), u64::MAX);
    assert_eq!(c.user, "admin");
}

#[test]
fn reboot_command_line_over_ssh() {
    let cmd = config(None).reboot_command_line("web01", 2222);
    assert_eq!(cmd.program, "ssh");
    assert_eq!(
        cmd.args,
        vec![
            "-o", "StrictHostKeyChecking=no", "-o", "ConnectTimeout=10", "-p", "2222", "-l", "admin", "web01",
            "sudo reboot"
        ]
    );
}

#[test]
fn verify_command_line_over_ssh() {
    let cmd = config(None).verify_command_line("web01", 22);
    assert_eq!(cmd.program, "ssh");
    assert_eq!(
        cmd.args,
        vec!["-o", "StrictHostKeyChecking=no", "-o", "ConnectTimeout=10", "-p", "22", "-l", "admin", "web01", "uptime"]
    );
}

#[test]
fn verify_command_line_custom() {
    let cmd = config(Some("curl -sf http://{host}:8080/health")).verify_command_line("web01", 22);
    assert_eq!(cmd.program, "sh");
    assert_eq!(cmd.args, vec!["-c", "curl -sf http://web01:8080/health"]);
    let cmd = config(Some("ssh -p {port} -l {user} {host} 'systemctl is-active nginx' {host}"))
        .verify_command_line("db01", 2200);
    assert_eq!(cmd.args, vec!["-c", "ssh -p 2200 -l admin db01 'systemctl is-active nginx' db01"]);
}

#[test]
fn verify_placeholders_replaced_in_order() {
    // The host is put in first, so a host that reads `{user}` gets the user.
    let cmd = config(Some("{host}/{{port}}")).verify_command_line("{user}", 7);
    assert_eq!(cmd.args, vec!["-c", "admin/{7}"]);
}

#[test]
fn launch_errors() {
    assert_eq!(reboot_launch_error("no such file"), "ssh failed: no such file");
    assert_eq!(config(None).verify_launch_error("boom"), "ssh failed: boom");
    assert_eq!(config(Some("true")).verify_launch_error("boom"), "verify command failed: boom");
}

#[test]
fn reboot_outcomes() {
    assert_eq!(reboot_outcome(true, Some(0), ""), Ok(()));
    assert_eq!(reboot_outcome(false, Some(255), "whatever"), Ok(()));
    assert_eq!(reboot_outcome(false, Some(1), "Connection to x closed by remote host."), Ok(()));
    assert_eq!(reboot_outcome(false, None, "read: Connection reset by peer"), Ok(()));
    assert_eq!(
        reboot_outcome(false, Some(1), "sudo: a password is required"),
        Err("reboot command failed: sudo: a password is required".to_string())
    );
    assert_eq!(reboot_outcome(false, None, ""), Err("reboot command failed: ".to_string()));
}

#[test]
fn verify_outcomes() {
    assert_eq!(verify_outcome(true, "noise"), Ok(()));
    assert_eq!(verify_outcome(false, "refused"), Err("verify failed: refused".to_string()));
}
