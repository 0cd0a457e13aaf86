use rustsmb::calendar::{civil_from_days, dos_stamp, dos_stamp_of};
use rustsmb::json::{quote, status_body, tests_body, Summary, TestRow};
use rustsmb::lint::{is_magic, LiteralUse};
use rustsmb::options::{build_shares, build_users, parse_port, parse_runner_args, parse_server_args, share_list, split_once, RunnerCommand};
use rustsmb::report::{category_summaries, exit_code, history_line, order_runs, short, CaseResult, CaseStatus, RunReport};
use rustsmb::suite::{all, is_selected, verdict, Check, DriverResp, Failure, Key, Step, StepReply};

fn result(id: &str, category: &str, status: CaseStatus, ms: u128) -> CaseResult {
    CaseResult { id: id.into(), category: category.into(), status, duration_ms: ms, message: String::new() }
}

fn results() -> Vec<CaseResult> {
    vec![
        result("a.1", "A", CaseStatus::Pass, 5),
        result("b.1", "B", CaseStatus::Fail, 7),
        result("a.2", "A", CaseStatus::Skip, 0),
        result("a.3", "A", CaseStatus::Error, 1),
    ]
}

#[test]
fn a_report_counts_its_cases() {
    let r = RunReport::build(results(), "0123456789abcdef".into(), "0.1".into(), "host".into(), 1_700_000_000);
    assert_eq!(r.run_id, "1700000000-0123456789ab");
    assert_eq!((r.total, r.passed, r.failed, r.skipped, r.errored), (4, 1, 1, 1, 1));
    assert_eq!(r.duration_ms, 13);
    assert_eq!(exit_code(&r, false), 1);
    assert_eq!(exit_code(&r, true), 0);
    assert_eq!(history_line(&r, &r.cases[1]), "1700000000-0123456789ab,1700000000,B,b.1,Fail,7\n");
    assert_eq!(short("abc"), "abc");
}

#[test]
fn categories_keep_the_order_of_their_first_case() {
    let v = category_summaries(&results());
    assert_eq!(v.len(), 2);
    assert_eq!(v[0].name, "A");
    assert_eq!((v[0].pass, v[0].fail, v[0].skip, v[0].error), (1, 0, 1, 1));
    assert_eq!(v[1].name, "B");
    assert_eq!((v[1].pass, v[1].fail, v[1].skip, v[1].error), (0, 1, 0, 0));
}

#[test]
fn runs_are_ordered_newest_first() {
    assert_eq!(order_runs(&vec![3, 9, 3, 7]), vec![1, 3, 0, 2]);
    assert!(order_runs(&vec![]).is_empty());
}

fn row(suite: &str, name: &str, category: &str, status: &str) -> TestRow {
    TestRow {
        suite: suite.into(),
        name: name.into(),
        category: category.into(),
        status: status.into(),
        duration_ms: 12,
        timestamp: "t".into(),
        commit: "c".into(),
    }
}

#[test]
fn strings_are_escaped() {
    assert_eq!(quote("a\"b\\c\n\r\t\u{1}\u{1f}z"), "\"a\\\"b\\\\c\\n\\r\\t\\u0001\\u001fz\"");
    assert_eq!(quote(""), "\"\"");
}

#[test]
fn all_rows_are_listed() {
    assert_eq!(tests_body(&[]), "[]");
    let rows = [row("s", "n", "c", "pass"), row("s", "m", "c", "fail")];
    assert_eq!(
        tests_body(&rows),
        "[{\"suite\":\"s\",\"name\":\"n\",\"category\":\"c\",\"status\":\"pass\",\"duration_ms\":12,\"timestamp\":\"t\",\"commit\":\"c\"},{\"suite\":\"s\",\"name\":\"m\",\"category\":\"c\",\"status\":\"fail\",\"duration_ms\":12,\"timestamp\":\"t\",\"commit\":\"c\"}]"
    );
}

#[test]
fn rows_are_read_back_as_json() {
    let rows = [row("s\"\\", "n\u{1}\n\t", "\u{1F600}", "pa,ss"), row("", "}]", "{[", ":")];
    let v: serde_json::Value = serde_json::from_str(&tests_body(&rows)).unwrap();
    let list = v.as_array().unwrap();
    assert_eq!(list.len(), 2);
    for (o, r) in list.iter().zip(rows.iter()) {
        assert_eq!(o["suite"].as_str(), Some(r.suite.as_str()));
        assert_eq!(o["name"].as_str(), Some(r.name.as_str()));
        assert_eq!(o["category"].as_str(), Some(r.category.as_str()));
        assert_eq!(o["status"].as_str(), Some(r.status.as_str()));
        assert_eq!(o["duration_ms"].as_u64(), Some(12));
        assert_eq!(o["timestamp"].as_str(), Some("t"));
        assert_eq!(o["commit"].as_str(), Some("c"));
    }
}

#[test]
fn cases_name_the_section_they_are_about() {
    let v = all();
    assert_eq!((v[0].id, v[0].section), ("negotiate.default", "MS-SMB2 3.1.1 \u{a7}2.2.3"));
    assert!(v.iter().all(|c| c.section.starts_with("MS-") && c.section.contains('\u{a7}')));
}

#[test]
fn the_status_breaks_results_down_in_order() {
    let rows = [row("z", "1", "c", "pass"), row("a", "2", "c", "odd"), row("z", "3", "c", "skip")];
    let s = Summary { total: 3, passed: 1, failed: 0, skipped: 1, unknown: 1 };
    assert_eq!(
        status_body(&rows, &s),
        "{\"total\":3,\"passed\":1,\"failed\":0,\"skipped\":1,\"unknown\":1,\"suites\":[{\"suite\":\"a\",\"passed\":0,\"failed\":0,\"skipped\":0,\"unknown\":1,\"total\":1},{\"suite\":\"z\",\"passed\":1,\"failed\":0,\"skipped\":1,\"unknown\":0,\"total\":2}],\"categories\":[{\"category\":\"c\",\"passed\":1,\"failed\":0,\"skipped\":1,\"unknown\":1,\"total\":3}]}"
    );
}

#[test]
fn dates_of_days() {
    assert_eq!(civil_from_days(0), (1970, 1, 1));
    assert_eq!(civil_from_days(59), (1970, 3, 1));
    assert_eq!(civil_from_days(11_016), (2000, 2, 29));
    assert_eq!(civil_from_days(11_017), (2000, 3, 1));
    assert_eq!(civil_from_days(19_723), (2024, 1, 1));
}

#[test]
fn times_are_packed() {
    let noon = 11_016i64 * 86_400 + 12 * 3600 + 34 * 60 + 57;
    assert_eq!(dos_stamp(noon), (20 << 9 | 2 << 5 | 29) | (12 << 11 | 34 << 5 | 56));
    assert_eq!(dos_stamp(-5), 1 << 5 | 1);
    let ft = (noon as u64 + 11_644_473_600) * 10_000_000;
    assert_eq!(dos_stamp_of(ft), dos_stamp(noon));
}

#[test]
fn literals_need_names() {
    let plain = LiteralUse { value: 2, from_expansion: false, in_const: false, in_test: false };
    assert!(is_magic(&plain, "rustsmb"));
    assert!(!is_magic(&plain, "smb_proto_smb2"));
    assert!(!is_magic(&LiteralUse { value: 1, ..plain }, "rustsmb"));
    assert!(!is_magic(&LiteralUse { from_expansion: true, ..plain }, "rustsmb"));
    assert!(!is_magic(&LiteralUse { in_const: true, ..plain }, "rustsmb"));
    assert!(!is_magic(&LiteralUse { in_test: true, ..plain }, "rustsmb"));
}

fn args(a: &[&str]) -> Vec<String> {
    a.iter().map(|s| s.to_string()).collect()
}

#[test]
fn ports_are_numbers() {
    assert_eq!(parse_port("445"), Some(445));
    assert_eq!(parse_port("+0065535"), Some(65535));
    assert_eq!(parse_port("65536"), None);
    assert_eq!(parse_port(""), None);
    assert_eq!(parse_port("+"), None);
    assert_eq!(parse_port("-1"), None);
    assert_eq!(parse_port("12x"), None);
}

#[test]
fn server_arguments() {
    let o = parse_server_args(&args(&["-p", "445", "x", "--share", "a=/b", "--user", "U:p:q", "-s", "/c"])).unwrap();
    assert_eq!(o.port, 445);
    assert_eq!(o.shares, args(&["a=/b", "/c"]));
    assert_eq!(o.users, args(&["U:p:q"]));
    assert!(parse_server_args(&args(&["-p", "x", "--help"])).is_none());
    assert_eq!(parse_server_args(&args(&["-p", "x"])).unwrap().port, 4450);
    assert_eq!(parse_server_args(&args(&["-s"])).unwrap().shares.len(), 0);
}

#[test]
fn shares_and_users_from_arguments() {
    assert_eq!(split_once("a=b=c", '='), Some(("a".to_string(), "b=c".to_string())));
    assert_eq!(share_list(&args(&[]), "/cwd"), vec![("public".to_string(), "/cwd".to_string())]);
    let list = share_list(&args(&["Docs=/d", "/only"]), "/cwd");
    assert_eq!(list, vec![("Docs".to_string(), "/d".to_string()), ("public".to_string(), "/only".to_string())]);
    let m = build_shares(&list, &args(&["DOCS"]), &args(&["public"]));
    let docs = m.get("docs").unwrap();
    assert_eq!((docs.name.as_str(), docs.root.as_str()), ("Docs", "/d"));
    assert!(docs.encrypt && !docs.compress && !docs.is_ipc);
    assert!(m.get("public").unwrap().compress);
    assert!(m.get("ipc$").unwrap().is_ipc);
    assert_eq!(m.get("ipc$").unwrap().name, "IPC$");
    let u = build_users(&args(&["Alice:x:y", "nobody", "alice:z"]));
    assert_eq!(u.get("alice").unwrap(), "z");
    assert!(u.get("nobody").is_none());
}

#[test]
fn runner_arguments() {
    match parse_runner_args(&args(&["--list", "--filter", "Lock", "--port", "99", "--record", "--server-bin", "b"])) {
        RunnerCommand::Run(o) => {
            assert!(o.list && o.record && !o.start_server && !o.no_fail);
            assert_eq!(o.filter, Some("Lock".to_string()));
            assert_eq!(o.port, Some(99));
            assert_eq!(o.server_bin, "b");
            assert_eq!(o.data_dir, "test/data");
        }
        _ => panic!("a run"),
    }
    assert!(matches!(parse_runner_args(&args(&["--list", "-h"])), RunnerCommand::Help));
    assert!(matches!(parse_runner_args(&args(&["--data-dir"])), RunnerCommand::Missing(f) if f == "--data-dir"));
    assert!(matches!(parse_runner_args(&args(&["--what"])), RunnerCommand::Unknown(f) if f == "--what"));
}

#[test]
fn the_catalogue_has_distinct_cases() {
    let v = all();
    assert_eq!(v.len(), 30);
    assert_eq!(v[0].id, "negotiate.default");
    assert_eq!(v[29].id, "security.query_descriptor");
    for i in 0..v.len() {
        for j in 0..i {
            assert_ne!(v[i].id, v[j].id);
        }
    }
    assert!(is_selected(&v[0], None));
    assert!(is_selected(&v[0], Some("NEGO")));
    assert!(!is_selected(&v[0], Some("lock")));
}

#[test]
fn every_created_file_is_deleted() {
    for case in all() {
        let mut files: Vec<&str> = Vec::new();
        let mut open: Vec<(&str, &str, bool)> = Vec::new();
        for s in &case.steps {
            match s {
                Step::Open { handle, path, directory, delete_on_close, expect_fail, disposition, .. } => {
                    if !*expect_fail {
                        if !*directory && *disposition != rustsmb::suite::Disposition::Open && !files.contains(path) {
                            files.push(path);
                        }
                        open.push((handle, path, *delete_on_close));
                    }
                }
                Step::Close { handle, delete } => {
                    let i = open.iter().position(|o| o.0 == *handle).unwrap();
                    let o = open.remove(i);
                    if o.2 || *delete {
                        files.retain(|f| *f != o.1);
                    }
                }
                Step::Rename { handle, new_name, .. } => {
                    let o = open.iter_mut().find(|o| o.0 == *handle).unwrap();
                    files.retain(|f| *f != o.1);
                    files.push(new_name);
                    o.1 = new_name;
                }
                Step::Delete { handle } => open.iter_mut().find(|o| o.0 == *handle).unwrap().2 = true,
                _ => {}
            }
        }
        assert!(files.is_empty(), "{} leaves {:?}", case.id, files);
    }
}

fn step_reply() -> StepReply {
    StepReply { crc32: None, length: None, end_of_file: None, names: None, output: None, streams: None }
}

fn resp(ok: bool, steps: Vec<StepReply>) -> DriverResp {
    DriverResp { ok, dialect: "3.1.1".into(), error: None, steps }
}

#[test]
fn verdicts_on_what_the_driver_reports() {
    assert_eq!(verdict(&Check::Completes, &resp(true, vec![])), Ok(None));
    assert_eq!(verdict(&Check::Completes, &resp(false, vec![])), Err(Failure::Driver));
    assert_eq!(verdict(&Check::Refused, &resp(true, vec![])), Err(Failure::Succeeded));
    assert_eq!(verdict(&Check::Refused, &resp(false, vec![])), Ok(None));
    assert_eq!(verdict(&Check::Dialect("2.1.0"), &resp(true, vec![])), Err(Failure::WrongDialect));
    assert_eq!(verdict(&Check::Dialect("3.1.1"), &resp(true, vec![])), Ok(None));
    let crc = |n| StepReply { crc32: Some(n), ..step_reply() };
    let same = Check::SameCrc { write: 0, read: 1 };
    assert_eq!(verdict(&same, &resp(true, vec![crc(5), crc(5)])), Ok(None));
    assert_eq!(verdict(&same, &resp(true, vec![crc(5), crc(6)])), Err(Failure::Mismatch { write: 5, read: 6 }));
    assert_eq!(
        verdict(&same, &resp(true, vec![crc(5)])),
        Err(Failure::Missing { step: 1, key: Key::Crc32 })
    );
    let moved = Check::Throughput { write: 0, read: 1, bytes: 10 };
    assert_eq!(verdict(&moved, &resp(true, vec![crc(5), crc(5)])), Ok(Some(10)));
}

#[test]
fn verdicts_on_listings_and_output() {
    let names = |n: &[&str]| StepReply { names: Some(args(n)), ..step_reply() };
    let check = Check::Lists { step: 0, without: Some("x"), first: "a", second: Some("b") };
    assert_eq!(verdict(&check, &resp(true, vec![names(&["a", "b"])])), Ok(None));
    assert_eq!(verdict(&check, &resp(true, vec![names(&["a", "b", "x"])])), Err(Failure::Leaked));
    assert_eq!(verdict(&check, &resp(true, vec![names(&["b"])])), Err(Failure::Absent { second: false }));
    assert_eq!(verdict(&check, &resp(true, vec![names(&["a"])])), Err(Failure::Absent { second: true }));
    assert_eq!(verdict(&check, &resp(true, vec![step_reply()])), Err(Failure::NoNames { step: 0 }));
    let out = Check::Output { step: 0, least: 152 };
    let long = |n| StepReply { output: Some(n), ..step_reply() };
    assert_eq!(verdict(&out, &resp(true, vec![long(203)])), Ok(None));
    assert_eq!(verdict(&out, &resp(true, vec![long(202)])), Err(Failure::Short { len: 151 }));
    assert_eq!(verdict(&out, &resp(true, vec![])), Err(Failure::NoOutput { step: 0 }));
    let mut closed = resp(false, vec![]);
    assert_eq!(verdict(&Check::Disconnects, &closed), Err(Failure::NotClosed));
    closed.error = Some("Connection CLOSED by peer".into());
    assert_eq!(verdict(&Check::Disconnects, &closed), Ok(None));
    closed.ok = true;
    assert_eq!(verdict(&Check::Disconnects, &closed), Err(Failure::Succeeded));
}

#[test]
fn verdicts_on_numbers_and_streams() {
    let eof = |n| StepReply { end_of_file: Some(n), ..step_reply() };
    let check = Check::EndOfFile { step: 0, is: 1000 };
    assert_eq!(verdict(&check, &resp(true, vec![eof(1000)])), Ok(None));
    assert_eq!(verdict(&check, &resp(true, vec![eof(1)])), Err(Failure::WrongEnd { is: 1 }));
    assert_eq!(verdict(&check, &resp(true, vec![])), Err(Failure::Missing { step: 0, key: Key::EndOfFile }));
    let len = |n| StepReply { length: Some(n), ..step_reply() };
    let check = Check::Length { step: 0, least: 20 };
    assert_eq!(verdict(&check, &resp(true, vec![len(20)])), Ok(None));
    assert_eq!(verdict(&check, &resp(true, vec![len(19)])), Err(Failure::TooSmall { len: 19 }));
    assert_eq!(verdict(&check, &resp(true, vec![eof(1)])), Err(Failure::Missing { step: 0, key: Key::Length }));
    let streams = |n: &[&str]| StepReply { streams: Some(args(n)), ..step_reply() };
    let check = Check::Stream { step: 0, part: ":alt:" };
    assert_eq!(verdict(&check, &resp(true, vec![streams(&["::$DATA", ":alt:$DATA"])])), Ok(None));
    assert_eq!(verdict(&check, &resp(true, vec![streams(&["::$DATA"])])), Err(Failure::NoStream));
    assert_eq!(verdict(&check, &resp(true, vec![len(1)])), Err(Failure::NoStreams { step: 0 }));
}
