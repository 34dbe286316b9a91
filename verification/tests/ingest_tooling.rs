use racetyper::ingest::{plan_command, select_quotes, CmdPlan};

fn args(list: &[&str]) -> Vec<Vec<u8>> {
    list.iter().map(|a| a.as_bytes().to_vec()).collect()
}

#[test]
fn no_arguments_runs_the_server() {
    assert_eq!(plan_command(&args(&["racetyper"])), CmdPlan::RunServer);
    assert_eq!(plan_command(&args(&[])), CmdPlan::RunServer);
}

#[test]
fn unknown_argument_runs_the_server() {
    assert_eq!(plan_command(&args(&["racetyper", "bogus"])), CmdPlan::RunServer);
}

#[test]
fn text_with_body_adds_a_text() {
    assert_eq!(plan_command(&args(&["racetyper", "text", "a quote"])), CmdPlan::AddText);
}

#[test]
fn text_without_body_is_a_usage_error() {
    assert_eq!(plan_command(&args(&["racetyper", "text"])), CmdPlan::AddTextUsage);
    assert_eq!(plan_command(&args(&["racetyper", "text", "a", "b"])), CmdPlan::AddTextUsage);
}

#[test]
fn csv_with_file_imports() {
    assert_eq!(plan_command(&args(&["racetyper", "csv", "file.csv"])), CmdPlan::ImportCsv);
}

#[test]
fn csv_without_file_is_a_usage_error() {
    assert_eq!(plan_command(&args(&["racetyper", "csv"])), CmdPlan::ImportCsvUsage);
}

#[test]
fn quotes_filtered_by_length_in_order() {
    let quotes = args(&["abc", "x", "defg", "hij"]);
    let picked = select_quotes(&quotes, 2, 100);
    assert_eq!(picked, args(&["abc", "defg", "hij"]));
}

#[test]
fn quote_cap_overshoots_by_one() {
    let quotes = args(&["abc", "x", "defg", "hij"]);
    // the scan stops only after the entry that overflows the cap
    let picked = select_quotes(&quotes, 2, 1);
    assert_eq!(picked, args(&["abc", "defg"]));
}

#[test]
fn quote_exactly_at_minimum_length_is_excluded() {
    // the filter is strictly longer-than
    let quotes = args(&["abc", "abcd"]);
    let picked = select_quotes(&quotes, 3, 10);
    assert_eq!(picked, args(&["abcd"]));
}

#[test]
fn no_quote_long_enough_picks_nothing() {
    let quotes = args(&["a", "bb"]);
    let picked = select_quotes(&quotes, 170, 1000);
    assert!(picked.is_empty());
}
