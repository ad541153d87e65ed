use logon_report::event::EventLogon;
use logon_report::histogram::logon_hour;
use logon_report::histogram::tally;
use logon_report::histogram::Histogram;
use logon_report::histogram::UserHours;
use logon_report::histogram::HOURS;
use logon_report::markup::parse_log;
use logon_report::report::render_csv;
use logon_report::summary::summarize;
use logon_report::summary::SummaryError;
use logon_report::event::EventFault;

fn logon(time: &str, user: &str) -> EventLogon {
    EventLogon {
        EventID: 4624,
        TimeCreated: time.to_string(),
        SubjectUserSid: String::new(),
        SubjectUserName: String::new(),
        SubjectDomainName: String::new(),
        SubjectLogonId: String::new(),
        TargetUserSid: String::new(),
        TargetUserName: user.to_string(),
        TargetDomainName: String::new(),
        TargetLogonId: String::new(),
    }
}

fn row(user: &str, counts: &[(usize, usize)]) -> UserHours {
    let mut hours = [0usize; 24];
    for (hour, count) in counts {
        hours[*hour] = *count;
    }
    UserHours { user: user.to_string(), hours }
}

#[test]
fn hours_in_a_day() {
    assert_eq!(HOURS, 24);
}

#[test]
fn logon_hour_reads_what_follows_the_first_t() {
    assert_eq!(logon_hour("2024-03-01T12:34:56.789Z"), Some(12));
    assert_eq!(logon_hour("'2024-03-01T00:00:00.000Z'"), Some(0));
    assert_eq!(logon_hour("'2024-03-01T23:59:59.999Z'"), Some(23));
    assert_eq!(logon_hour("T7"), Some(7));
    assert_eq!(logon_hour("T07:"), Some(7));
    assert_eq!(logon_hour("T+5:00"), Some(5));
    assert_eq!(logon_hour("xT05T17:00"), Some(5));
    assert_eq!(logon_hour("T0009:30"), Some(9));
}

#[test]
fn logon_hour_wants_an_hour_of_the_day() {
    assert_eq!(logon_hour(""), None);
    assert_eq!(logon_hour("2024-03-01 12:34:56"), None);
    assert_eq!(logon_hour("2024-03-01t12:34:56"), None);
    assert_eq!(logon_hour("T"), None);
    assert_eq!(logon_hour("T:12"), None);
    assert_eq!(logon_hour("TT12:00"), None);
    assert_eq!(logon_hour("T24:00:00"), None);
    assert_eq!(logon_hour("T-1:00"), None);
    assert_eq!(logon_hour("T 9:00"), None);
    assert_eq!(logon_hour("T12.5"), None);
    assert_eq!(logon_hour("T99999999999999999999999:00"), None);
}

#[test]
fn tally_counts_by_user_and_hour() {
    let logons = vec![
        logon("'2024-03-01T09:00:00Z'", "bob"),
        logon("'2024-03-01T12:34:56Z'", "alice"),
        logon("'2024-03-02T09:59:59Z'", "bob"),
        logon("'2024-03-02T12:00:00Z'", "alice"),
        logon("'2024-03-03T23:00:00Z'", "alice"),
        logon("'2024-03-03T00:00:01Z'", "carol"),
    ];
    let expected = Histogram {
        rows: vec![
            row("bob", &[(9, 2)]),
            row("alice", &[(12, 2), (23, 1)]),
            row("carol", &[(0, 1)]),
        ],
    };
    assert_eq!(tally(&logons), Ok(expected));
}

#[test]
fn tally_of_no_logons_has_no_rows() {
    assert_eq!(tally(&vec![]), Ok(Histogram { rows: vec![] }));
}

#[test]
fn tally_tells_users_apart_by_the_whole_name() {
    let logons = vec![logon("T1", "Bob"), logon("T1", "bob"), logon("T1", ""), logon("T2", "")];
    let expected = Histogram {
        rows: vec![row("Bob", &[(1, 1)]), row("bob", &[(1, 1)]), row("", &[(1, 1), (2, 1)])],
    };
    assert_eq!(tally(&logons), Ok(expected));
}

#[test]
fn tally_stops_at_the_first_logon_without_an_hour() {
    let logons = vec![logon("T1", "a"), logon("1:00", "b"), logon("T1", "c"), logon("T24", "d")];
    assert_eq!(tally(&logons), Err(1));
    assert_eq!(tally(&vec![logon("T1", "a"), logon("T24", "d")]), Err(1));
    assert_eq!(tally(&vec![logon("", "a")]), Err(0));
}

#[test]
fn row_total_adds_the_hours() {
    assert_eq!(row("a", &[]).total(), 0);
    assert_eq!(row("a", &[(0, 1), (23, 2), (12, 4)]).total(), 7);
    let full = UserHours { user: "a".to_string(), hours: [usize::MAX; 24] };
    assert_eq!(full.total(), 24 * (usize::MAX as u128));
}

#[test]
fn row_total_is_the_number_of_the_users_logons() {
    let logons = vec![
        logon("T1", "a"), logon("T2", "b"), logon("T1", "a"), logon("T23", "a"), logon("T0", "b"),
    ];
    let table = tally(&logons).unwrap();
    assert_eq!(table.totals(), vec![3, 2]);
    assert_eq!(table.user_totals(), vec![("a".to_string(), 3), ("b".to_string(), 2)]);
}

#[test]
fn ranked_puts_the_busiest_user_first() {
    let table = Histogram {
        rows: vec![
            row("one", &[(3, 1)]),
            row("five", &[(3, 2), (4, 3)]),
            row("none", &[]),
            row("three", &[(0, 3)]),
        ],
    };
    let expected = Histogram {
        rows: vec![
            row("five", &[(3, 2), (4, 3)]),
            row("three", &[(0, 3)]),
            row("one", &[(3, 1)]),
            row("none", &[]),
        ],
    };
    assert_eq!(table.ranked(), expected);
}

#[test]
fn ranked_keeps_the_order_of_equal_totals() {
    let table = Histogram {
        rows: vec![
            row("b", &[(1, 2)]),
            row("a", &[(2, 2)]),
            row("z", &[(5, 9)]),
            row("c", &[(3, 1), (4, 1)]),
        ],
    };
    let expected = Histogram {
        rows: vec![
            row("z", &[(5, 9)]),
            row("b", &[(1, 2)]),
            row("a", &[(2, 2)]),
            row("c", &[(3, 1), (4, 1)]),
        ],
    };
    assert_eq!(table.ranked(), expected);
    assert_eq!(Histogram { rows: vec![] }.ranked(), Histogram { rows: vec![] });
}

#[test]
fn render_csv_of_no_users() {
    let mut expected = String::from("Time,\n");
    for hour in 0..24 {
        expected.push_str(&format!("{},\n", hour));
    }
    assert_eq!(render_csv(&Histogram { rows: vec![] }), expected);
}

#[test]
fn render_csv_has_a_column_for_each_user() {
    let table = Histogram { rows: vec![row("alice", &[(0, 3), (12, 10)]), row("bob", &[(12, 1), (23, 4624)])] };
    let expected = "Time,alice,bob,\n\
0,3,0,\n1,0,0,\n2,0,0,\n3,0,0,\n4,0,0,\n5,0,0,\n6,0,0,\n7,0,0,\n8,0,0,\n9,0,0,\n10,0,0,\n11,0,0,\n\
12,10,1,\n13,0,0,\n14,0,0,\n15,0,0,\n16,0,0,\n17,0,0,\n18,0,0,\n19,0,0,\n20,0,0,\n21,0,0,\n22,0,0,\n\
23,0,4624,\n";
    assert_eq!(render_csv(&table), expected);
}

#[test]
fn render_csv_writes_names_as_they_are() {
    let csv = render_csv(&Histogram { rows: vec![row("a,b", &[]), row("", &[]), row("\u{e9}\n", &[])] });
    assert!(csv.starts_with("Time,a,b,,\u{e9}\n,\n0,0,0,0,\n"));
    assert_eq!(csv.lines().count(), 26);
}

fn sample_event(id: &str, time: &str, user: &str) -> String {
    format!(
        "<Event xmlns='http://schemas.microsoft.com/win/2004/08/events/event'>\
<System><Provider Name='Microsoft-Windows-Security-Auditing'/><EventID>{}</EventID>\
<TimeCreated SystemTime='{}'/><Computer>HOST</Computer></System>\
<EventData><Data Name='SubjectUserName'>HOST$</Data><Data Name='TargetUserName'>{}</Data>\
<Data Name='TargetDomainName'>LAB</Data></EventData></Event>\n",
        id, time, user
    )
}

#[test]
fn summarize_reports_on_a_parsed_log() {
    let mut text = String::from("<Events>\n");
    text.push_str(&sample_event("4624", "2024-03-01T09:15:00.000Z", "bob"));
    text.push_str(&sample_event("4624", "2024-03-01T12:34:56.789Z", "alice"));
    text.push_str(&sample_event("4625", "2024-03-01T12:40:00.000Z", "mallory"));
    text.push_str(&sample_event("4624", "2024-03-02T12:00:00.000Z", "alice"));
    text.push_str(&sample_event("4634", "2024-03-02T13:00:00.000Z", "alice"));
    text.push_str("<Event><System><EventID>4624</EventID></System></Event>");
    text.push_str("</Events>");
    let root = parse_log(text).unwrap();
    let summary = summarize(&root).unwrap();
    assert_eq!(
        summary.histogram,
        Histogram { rows: vec![row("alice", &[(12, 2)]), row("bob", &[(9, 1)])] },
    );
    assert_eq!(summary.csv, render_csv(&summary.histogram));
    assert!(summary.csv.starts_with("Time,alice,bob,\n0,0,0,\n"));
    assert!(summary.csv.contains("\n9,0,1,\n"));
    assert!(summary.csv.contains("\n12,2,0,\n"));
    assert_eq!(summary.users, vec![("alice".to_string(), 2), ("bob".to_string(), 1)]);
    assert_eq!(summary.failed.len(), 1);
    let failed = &summary.failed[0];
    assert_eq!(failed.EventID, 4625);
    assert_eq!(failed.TimeCreated, "'2024-03-01T12:40:00.000Z'");
    assert_eq!(failed.SubjectUserName, "HOST$");
    assert_eq!(failed.TargetUserName, "mallory");
    assert_eq!(failed.TargetDomainName, "LAB");
    assert_eq!(failed.TargetUserSid, "");
}

#[test]
fn summarize_reports_the_first_error() {
    let faulty = parse_log("<Events><Event><EventData></EventData></Event></Events>".to_string()).unwrap();
    assert_eq!(summarize(&faulty), Err(SummaryError::Event(EventFault::MissingSystem)));
    let mut text = String::from("<Events>");
    text.push_str(&sample_event("4624", "2024-03-01T09:15:00.000Z", "bob"));
    text.push_str(&sample_event("4625", "yesterday", "mallory"));
    text.push_str(&sample_event("4624", "2024-03-01 12:34:56", "alice"));
    text.push_str(&sample_event("4624", "never", "alice"));
    text.push_str("</Events>");
    let untimed = parse_log(text).unwrap();
    assert_eq!(summarize(&untimed), Err(SummaryError::Time(1)));
}

#[test]
fn summarize_of_an_empty_log() {
    let root = parse_log("<Events></Events>".to_string()).unwrap();
    let summary = summarize(&root).unwrap();
    assert_eq!(summary.histogram, Histogram { rows: vec![] });
    assert_eq!(summary.csv, render_csv(&Histogram { rows: vec![] }));
    assert!(summary.users.is_empty());
    assert!(summary.failed.is_empty());
}

#[test]
fn summarize_reads_names_of_any_characters() {
    let mut text = String::from("<Events>");
    text.push_str(&sample_event("4624", "2024-03-01T09:15:00.000Z", "Jos\u{e9}"));
    text.push_str(&sample_event("4624", "2024-03-01T10:15:00.000Z", "\u{6771}\u{4eac}"));
    text.push_str(&sample_event("4624", "2024-03-01T09:45:00.000Z", "Jos\u{e9}"));
    text.push_str(&sample_event("4625", "2024-03-01T11:00:00.000Z", "Zo\u{eb}"));
    text.push_str("</Events>");
    let root = parse_log(text).unwrap();
    let summary = summarize(&root).unwrap();
    assert_eq!(
        summary.histogram,
        Histogram { rows: vec![row("Jos\u{e9}", &[(9, 2)]), row("\u{6771}\u{4eac}", &[(10, 1)])] },
    );
    assert!(summary.csv.starts_with("Time,Jos\u{e9},\u{6771}\u{4eac},\n0,0,0,\n"));
    assert_eq!(summary.users, vec![("Jos\u{e9}".to_string(), 2), ("\u{6771}\u{4eac}".to_string(), 1)]);
    assert_eq!(summary.failed.len(), 1);
    assert_eq!(summary.failed[0].TargetUserName, "Zo\u{eb}");
}

#[test]
fn summarize_ranks_the_users() {
    let mut text = String::from("<Events>");
    for (hour, user) in [("01", "d"), ("02", "b"), ("03", "c"), ("04", "b"), ("05", "a"), ("06", "c"), ("07", "a")] {
        text.push_str(&sample_event("4624", &format!("2024-03-01T{}:00:00Z", hour), user));
    }
    text.push_str("</Events>");
    let summary = summarize(&parse_log(text).unwrap()).unwrap();
    assert_eq!(
        summary.users,
        vec![
            ("b".to_string(), 2),
            ("c".to_string(), 2),
            ("a".to_string(), 2),
            ("d".to_string(), 1),
        ],
    );
    for pair in summary.histogram.rows.windows(2) {
        assert!(pair[0].total() >= pair[1].total());
    }
}
