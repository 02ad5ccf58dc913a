use doggo_core::eq_ignore_case;
use doggo_core::is_source_extension;
use doggo_core::staleness::find_deps;
use doggo_core::staleness::is_up_to_date;
use doggo_core::staleness::up_to_date_decision;
use doggo_core::staleness::parse_depfile;

fn deps_for(text: &str, target: &str) -> Option<Vec<String>> {
    let rules = parse_depfile(&text.as_bytes().to_vec())?;
    let deps = find_deps(&rules, &target.as_bytes().to_vec())?;
    Some(
        deps.iter()
            .map(|d| String::from_utf8(d.clone()).unwrap())
            .collect(),
    )
}

#[test]
fn a_simple_rule_parses() {
    let deps = deps_for("main.o: main.c util.h\n", "main.o").unwrap();
    assert_eq!(deps, vec!["main.c", "util.h"]);
}

#[test]
fn continuations_join_the_prerequisite_list() {
    let text = "x.o: x.c \\\n  include/foo.h \\\n  include/bar.h\n";
    let deps = deps_for(text, "x.o").unwrap();
    assert_eq!(deps, vec!["x.c", "include/foo.h", "include/bar.h"]);
}

#[test]
fn several_rules_keep_their_own_lists() {
    let text = "a.o: a.c shared.h\nb.o: b.c shared.h\n";
    assert_eq!(deps_for(text, "a.o").unwrap(), vec!["a.c", "shared.h"]);
    assert_eq!(deps_for(text, "b.o").unwrap(), vec!["b.c", "shared.h"]);
}

#[test]
fn a_rule_may_end_without_a_final_newline() {
    let deps = deps_for("out.o: out.c", "out.o").unwrap();
    assert_eq!(deps, vec!["out.c"]);
}

#[test]
fn an_absent_target_finds_nothing() {
    assert!(deps_for("a.o: a.c\n", "b.o").is_none());
}

#[test]
fn a_rule_may_have_no_prerequisites() {
    let deps = deps_for("header.h:\n", "header.h").unwrap();
    assert!(deps.is_empty());
}

#[test]
fn a_line_without_a_colon_does_not_conform() {
    assert!(parse_depfile(&b"just some words\n".to_vec()).is_none());
}

#[test]
fn spaces_around_the_colon_are_tolerated() {
    let deps = deps_for("thing.o : thing.c\n", "thing.o").unwrap();
    assert_eq!(deps, vec!["thing.c"]);
}

#[test]
fn later_colons_belong_to_the_paths() {
    let deps = deps_for("win.o: c:/inc/x.h\n", "win.o").unwrap();
    assert_eq!(deps, vec!["c:/inc/x.h"]);
}

#[test]
fn all_prerequisites_older_means_up_to_date() {
    // Depfile and output both present, every listed header older than
    // the depfile: the output stands.
    let times = vec![Some(10u64), Some(50), Some(99)];
    assert!(is_up_to_date(&times, 100));
}

#[test]
fn a_newer_prerequisite_means_stale() {
    let times = vec![Some(10u64), Some(101)];
    assert!(!is_up_to_date(&times, 100));
}

#[test]
fn a_missing_prerequisite_means_stale() {
    let times = vec![Some(10u64), None];
    assert!(!is_up_to_date(&times, 100));
}

#[test]
fn a_prerequisite_as_old_as_the_baseline_is_fine() {
    let times = vec![Some(100u64)];
    assert!(is_up_to_date(&times, 100));
}

#[test]
fn escaped_spaces_stay_inside_a_path() {
    let deps = deps_for("x.o: a.c f\\ iz.h\n", "x.o").unwrap();
    assert_eq!(deps, vec!["a.c", "f iz.h"]);
}

#[test]
fn escaped_backslash_and_colon_are_path_bytes() {
    let deps = deps_for("x.o: a\\\\b.h w\\:q.h\n", "x.o").unwrap();
    assert_eq!(deps, vec!["a\\b.h", "w:q.h"]);
}

#[test]
fn a_continuation_may_carry_a_carriage_return() {
    let deps = deps_for("x.o: a.c \\\r\n  b.h\r\n", "x.o").unwrap();
    assert_eq!(deps, vec!["a.c", "b.h"]);
}

#[test]
fn a_missing_dependency_file_means_stale() {
    assert!(!up_to_date_decision(false, true, &Vec::new(), 0));
}

#[test]
fn a_missing_output_means_stale() {
    assert!(!up_to_date_decision(true, false, &Vec::new(), 0));
}

#[test]
fn present_files_defer_to_the_prerequisites() {
    assert!(up_to_date_decision(true, true, &vec![Some(5u64)], 10));
    assert!(!up_to_date_decision(true, true, &vec![Some(11u64)], 10));
}

#[test]
fn source_extensions_ignore_ascii_case() {
    assert!(is_source_extension("c"));
    assert!(is_source_extension("CPP"));
    assert!(is_source_extension("cXx"));
    assert!(is_source_extension("c++"));
    assert!(is_source_extension("cc"));
    assert!(is_source_extension("S"));
    assert!(is_source_extension("asm"));
    assert!(!is_source_extension("h"));
    assert!(!is_source_extension("rs"));
    assert!(eq_ignore_case("AbC", "aBc"));
    assert!(!eq_ignore_case("abc", "abd"));
}
