use display_switch::config::{activate, parse_configs, serialize_configs, DisplayConfig};
use display_switch::header::{format_header, parse_header};
use display_switch::section::{locate_section, rewrite_config, splice_section, SectionError};

fn lines(text: &[&str]) -> Vec<String> {
    text.iter().map(|s| s.to_string()).collect()
}

fn record(description: &str, status: &str, outputs: &[&str]) -> DisplayConfig {
    DisplayConfig {
        description: description.to_string(),
        status: status.to_string(),
        outputs: lines(outputs),
    }
}

fn same(a: &[DisplayConfig], b: &[DisplayConfig]) -> bool {
    a.len() == b.len()
        && a.iter().zip(b.iter()).all(|(x, y)| {
            x.description == y.description && x.status == y.status && x.outputs == y.outputs
        })
}

#[test]
fn header_is_found_and_trimmed() {
    let r = parse_header("# Description =  Laptop only , Status = enabled ");
    assert_eq!(r, Some(("Laptop only".to_string(), "enabled".to_string())));
}

#[test]
fn header_inside_a_longer_line() {
    let r = parse_header("## # Description = Dock, Status = Disabled, extra");
    assert_eq!(r, Some(("Dock".to_string(), "Disabled".to_string())));
}

#[test]
fn non_header_lines() {
    assert_eq!(parse_header("output eDP-1 res 1920x1080"), None);
    assert_eq!(parse_header("# Description = , Status = Enabled"), None);
    assert_eq!(parse_header("# Description = A, Status = ,"), None);
    assert_eq!(parse_header(""), None);
}

#[test]
fn header_is_written_canonically() {
    assert_eq!(format_header("Dock", "Enabled"), "# Description = Dock, Status = Enabled");
}

#[test]
fn parser_builds_records() {
    let section = lines(&[
        "stray line before any record",
        "# Description = A, Status = Enabled",
        "output X res 1920x1080",
        "",
        "   ",
        "# Description = B, Status = Disabled",
        "##output Y res 1280x720",
        "#   output Z pos 0 0",
        "#",
    ]);
    let configs = parse_configs(&section);
    let expected = vec![
        record("A", "Enabled", &["output X res 1920x1080"]),
        record("B", "Disabled", &["output Y res 1280x720", "output Z pos 0 0"]),
    ];
    assert!(same(&configs, &expected));
}

#[test]
fn parser_on_empty_section() {
    assert!(parse_configs(&[]).is_empty());
    assert!(parse_configs(&lines(&["output X", "# just a comment"])).is_empty());
}

#[test]
fn status_is_case_insensitive() {
    assert!(record("A", "ENABLED", &[]).is_enabled());
    assert!(record("A", "enabled", &[]).is_enabled());
    assert!(!record("A", "Disabled", &[]).is_enabled());
    assert!(!record("A", "Enabledx", &[]).is_enabled());
}

#[test]
fn serializer_normalizes_comments() {
    let configs = vec![
        record("A", "enabled", &["output X"]),
        record("B", "Disabled", &["output Y", "# output W"]),
    ];
    let out = serialize_configs(&configs);
    assert_eq!(
        out,
        lines(&[
            "# Description = A, Status = Enabled",
            "output X",
            "# Description = B, Status = Disabled",
            "# output Y",
            "# # output W",
        ])
    );
}

#[test]
fn round_trip_keeps_records() {
    let configs = vec![
        record("Laptop", "Enabled", &["output eDP-1 enable", "output HDMI-A-1 disable"]),
        record("Dock", "Disabled", &["output eDP-1 disable"]),
        record("Empty", "Disabled", &[]),
    ];
    let again = parse_configs(&serialize_configs(&configs));
    assert!(same(&again, &configs));
}

#[test]
fn activate_enables_exactly_one() {
    let mut configs = vec![
        record("A", "Enabled", &["a1", "a2"]),
        record("B", "Disabled", &["b1"]),
        record("C", "enabled", &[]),
    ];
    activate(&mut configs, 1);
    let statuses: Vec<&str> = configs.iter().map(|c| c.status.as_str()).collect();
    assert_eq!(statuses, vec!["Disabled", "Enabled", "Disabled"]);
    assert_eq!(configs.iter().filter(|c| c.is_enabled()).count(), 1);
    let names: Vec<&str> = configs.iter().map(|c| c.description.as_str()).collect();
    assert_eq!(names, vec!["A", "B", "C"]);
    assert_eq!(configs[0].outputs, lines(&["a1", "a2"]));
}

#[test]
fn two_record_example() {
    let file = lines(&[
        "set $mod Mod4",
        "# Display Start",
        "# Description = A, Status = Enabled",
        "output X res 1920x1080",
        "# Description = B, Status = Disabled",
        "##output Y res 1280x720",
        "# Display End",
        "bar { }",
    ]);
    let out = rewrite_config(&file, 1).unwrap();
    assert_eq!(
        out,
        lines(&[
            "set $mod Mod4",
            "# Display Start",
            "# Description = A, Status = Disabled",
            "# output X res 1920x1080",
            "# Description = B, Status = Enabled",
            "output Y res 1280x720",
            "# Display End",
            "bar { }",
        ])
    );
}

#[test]
fn rewrite_twice_is_stable() {
    let file = lines(&[
        "# Display Start",
        "# Description = A, Status = Enabled",
        "output X res 1920x1080",
        "# Description = B, Status = Disabled",
        "#output Y res 1280x720",
        "# Display End",
    ]);
    let once = rewrite_config(&file, 0).unwrap();
    let twice = rewrite_config(&once, 0).unwrap();
    assert_eq!(once, twice);
}

#[test]
fn markers_and_outside_lines_are_kept() {
    let file = lines(&["a", "b Display Start c", "# Description = A, Status = Disabled", "x", "-- Display End --", "z", "Display Start"]);
    let out = rewrite_config(&file, 0).unwrap();
    assert_eq!(out[..2], file[..2]);
    assert_eq!(out[out.len() - 3..], file[4..]);
}

#[test]
fn missing_end_marker() {
    let file = lines(&["# Display Start", "# Description = A, Status = Enabled", "output X"]);
    assert_eq!(locate_section(&file), Err(SectionError::EndMarkerNotFound));
    assert_eq!(rewrite_config(&file, 0), Err(SectionError::EndMarkerNotFound));
}

#[test]
fn missing_start_marker() {
    let file = lines(&["output X", "# Display End"]);
    assert_eq!(locate_section(&file), Err(SectionError::StartMarkerNotFound));
}

#[test]
fn inverted_markers() {
    let file = lines(&["# Display End", "# Display Start"]);
    assert_eq!(locate_section(&file), Err(SectionError::InvertedMarkers));
    let same_line = lines(&["Display Start Display End"]);
    assert_eq!(locate_section(&same_line), Err(SectionError::InvertedMarkers));
}

#[test]
fn first_markers_are_used() {
    let file = lines(&["x", "Display Start", "Display Start", "y", "Display End", "Display End"]);
    assert_eq!(locate_section(&file), Ok((1, 4)));
}

#[test]
fn no_such_record() {
    let file = lines(&["Display Start", "# Description = A, Status = Enabled", "Display End"]);
    assert_eq!(rewrite_config(&file, 1), Err(SectionError::NoSuchRecord));
    let empty = lines(&["Display Start", "Display End"]);
    assert_eq!(rewrite_config(&empty, 0), Err(SectionError::NoSuchRecord));
}

#[test]
fn splice_replaces_only_the_inside() {
    let file = lines(&["a", "S", "old1", "old2", "E", "b"]);
    let out = splice_section(&file, 1, 4, &lines(&["new"]));
    assert_eq!(out, lines(&["a", "S", "new", "E", "b"]));
    let adjacent = splice_section(&lines(&["S", "E"]), 0, 1, &lines(&["n1", "n2"]));
    assert_eq!(adjacent, lines(&["S", "n1", "n2", "E"]));
}
