use modrunner::catalog::{display_name, get_available_modules, is_module_file, menu_line, menu_lines};
use modrunner::cli::{
    about_line, interactive_startup, interpret_selection, no_modules_message, not_found_message,
    parse_command, usage_line, Command, MenuAction,
};
use modrunner::paths::{module_dir_candidate, resolve_module_dir};
use modrunner::runners::{find_script, run_exit_code, RunStatus};
use modrunner::text::{str_eq, str_le};

fn strings(names: &[&str]) -> Vec<String> {
    names.iter().map(|n| n.to_string()).collect()
}

#[test]
fn catalog_filters_and_sorts() {
    let entries = strings(&["deploy.sh", "README.md", "backup.sh", "notes.txt", "cleanup.sh"]);
    let catalog = get_available_modules(&entries);
    assert_eq!(catalog, strings(&["backup.sh", "cleanup.sh", "deploy.sh"]));
}

#[test]
fn catalog_counts_only_suffixed_names() {
    let entries = strings(&["a.sh", "b.sh", "c.sh", "x.txt", "y", ".sh", "sh", "d.sh.bak"]);
    let catalog = get_available_modules(&entries);
    assert_eq!(catalog.len(), 4);
    assert_eq!(catalog, strings(&[".sh", "a.sh", "b.sh", "c.sh"]));
}

#[test]
fn catalog_is_independent_of_listing_order() {
    let one = strings(&["deploy.sh", "backup.sh", "cleanup.sh", "README.md"]);
    let two = strings(&["README.md", "cleanup.sh", "deploy.sh", "backup.sh"]);
    assert_eq!(get_available_modules(&one), get_available_modules(&two));
}

#[test]
fn catalog_of_empty_listing_is_empty() {
    let catalog = get_available_modules(&strings(&[]));
    assert!(catalog.is_empty());
    let catalog = get_available_modules(&strings(&["README.md", "notes"]));
    assert!(catalog.is_empty());
}

#[test]
fn catalog_keeps_duplicate_names() {
    let entries = strings(&["a.sh", "a.sh", "b.sh"]);
    let catalog = get_available_modules(&entries);
    assert_eq!(catalog, strings(&["a.sh", "a.sh", "b.sh"]));
}

#[test]
fn module_file_test_is_case_sensitive() {
    assert!(is_module_file("backup.sh"));
    assert!(is_module_file(".sh"));
    assert!(!is_module_file("backup.SH"));
    assert!(!is_module_file("backup.sh "));
    assert!(!is_module_file("sh"));
    assert!(!is_module_file(""));
}

#[test]
fn display_name_strips_suffix() {
    assert_eq!(display_name("backup.sh"), "backup");
    assert_eq!(display_name("notes"), "notes");
    assert_eq!(display_name(".sh"), "");
    assert_eq!(display_name("a.sh.sh"), "a");
    assert_eq!(display_name("a.shsh"), "a.shsh");
}

#[test]
fn menu_line_is_exact() {
    assert_eq!(menu_line(0, "backup.sh"), "  a) backup");
    assert_eq!(menu_line(1, "cleanup.sh"), "  b) cleanup");
    assert_eq!(menu_line(25, "zz.sh"), "  z) zz");
}

#[test]
fn scenario_three_modules_menu_and_selection() {
    let entries = strings(&["backup.sh", "deploy.sh", "cleanup.sh"]);
    let catalog = get_available_modules(&entries);
    assert_eq!(catalog, strings(&["backup.sh", "cleanup.sh", "deploy.sh"]));
    let lines = menu_lines(&catalog);
    assert_eq!(lines, strings(&["  a) backup", "  b) cleanup", "  c) deploy"]));
    match interpret_selection("b", catalog.len()) {
        MenuAction::Run(idx) => {
            assert_eq!(idx, 1);
            assert_eq!(catalog[idx], "cleanup.sh");
        }
        other => panic!("expected a run selection, got {:?}", other),
    }
    let path = find_script("src/modules", &catalog, &catalog[1]);
    assert_eq!(path, Some("src/modules/cleanup.sh".to_string()));
}

#[test]
fn find_script_resolves_present_names() {
    let files = strings(&["backup.sh", "cleanup.sh"]);
    assert_eq!(
        find_script("/opt/mods", &files, "backup.sh"),
        Some("/opt/mods/backup.sh".to_string())
    );
    assert_eq!(
        modrunner::paths::find_script("/opt/mods", &files, "cleanup.sh"),
        Some("/opt/mods/cleanup.sh".to_string())
    );
}

#[test]
fn find_script_reports_absent_names() {
    let files = strings(&["backup.sh"]);
    assert_eq!(find_script("/opt/mods", &files, "missing.sh"), None);
    assert_eq!(modrunner::paths::find_script("/opt/mods", &files, "backup"), None);
    assert_eq!(find_script("/opt/mods", &strings(&[]), "backup.sh"), None);
}

#[test]
fn missing_script_exits_one_in_both_modes() {
    let files = strings(&["backup.sh"]);
    assert_eq!(find_script("src/modules", &files, "nope.sh"), None);
    assert_eq!(run_exit_code(&RunStatus::NotFound), 1);
    // In interactive mode a failed run never quits the loop: only quit words do.
    assert_eq!(interpret_selection("a", files.len()), MenuAction::Run(0));
    assert_ne!(interpret_selection("a", files.len()), MenuAction::Quit);
}

#[test]
fn exit_code_propagates_from_the_child() {
    assert_eq!(run_exit_code(&RunStatus::Exited(0)), 0);
    assert_eq!(run_exit_code(&RunStatus::Exited(7)), 7);
    assert_eq!(run_exit_code(&RunStatus::Exited(255)), 255);
    assert_eq!(run_exit_code(&RunStatus::Signaled), 1);
    assert_eq!(run_exit_code(&RunStatus::LaunchFailed), 1);
    assert_eq!(run_exit_code(&RunStatus::NotFound), 1);
}

#[test]
fn quit_words_in_any_casing_quit() {
    for input in ["q", "Q", "quit", "QUIT", "Quit", "exit", "EXIT", "Exit", " q ", "quit\n", "\texit\r\n"] {
        assert_eq!(interpret_selection(input, 3), MenuAction::Quit, "input {:?}", input);
    }
}

#[test]
fn letter_q_always_quits_before_selecting() {
    // With 17 or more modules the letter of the entry at index 16 is `q`;
    // the quit check wins, and the neighbouring letters still select.
    assert_eq!(interpret_selection("q", 20), MenuAction::Quit);
    assert_eq!(interpret_selection("p", 20), MenuAction::Run(15));
    assert_eq!(interpret_selection("r", 20), MenuAction::Run(17));
}

#[test]
fn quit_needs_no_modules() {
    assert_eq!(interpret_selection("q", 0), MenuAction::Quit);
    assert_eq!(interpret_selection("exit", 0), MenuAction::Quit);
}

#[test]
fn letters_select_catalog_entries() {
    assert_eq!(interpret_selection("a", 3), MenuAction::Run(0));
    assert_eq!(interpret_selection("b", 3), MenuAction::Run(1));
    assert_eq!(interpret_selection("c", 3), MenuAction::Run(2));
    assert_eq!(interpret_selection("B", 3), MenuAction::Run(1));
    assert_eq!(interpret_selection("  c  ", 3), MenuAction::Run(2));
    assert_eq!(interpret_selection("z", 26), MenuAction::Run(25));
}

#[test]
fn out_of_range_and_non_letter_input_is_invalid() {
    assert_eq!(interpret_selection("z", 3), MenuAction::Invalid);
    assert_eq!(interpret_selection("d", 3), MenuAction::Invalid);
    assert_eq!(interpret_selection("1", 3), MenuAction::Invalid);
    assert_eq!(interpret_selection("ab", 3), MenuAction::Invalid);
    assert_eq!(interpret_selection("", 3), MenuAction::Invalid);
    assert_eq!(interpret_selection("   ", 3), MenuAction::Invalid);
    assert_eq!(interpret_selection("%", 3), MenuAction::Invalid);
    assert_eq!(interpret_selection("quite", 3), MenuAction::Invalid);
    assert_eq!(interpret_selection("exit now", 3), MenuAction::Invalid);
}

#[test]
fn dispatch_flags_and_names() {
    let none = strings(&["prog"]);
    assert!(matches!(parse_command(&none), Command::Interactive));
    let empty: Vec<String> = Vec::new();
    assert!(matches!(parse_command(&empty), Command::Interactive));
    for flag in ["-h", "--help"] {
        let args = strings(&["prog", flag]);
        assert!(matches!(parse_command(&args), Command::Help));
    }
    for flag in ["-a", "--about"] {
        let args = strings(&["prog", flag]);
        assert!(matches!(parse_command(&args), Command::About));
    }
    let args = strings(&["prog", "backup.sh"]);
    match parse_command(&args) {
        Command::RunByName(name) => assert_eq!(name, "backup.sh"),
        other => panic!("expected a run request, got {:?}", other),
    }
}

#[test]
fn unrecognized_flag_is_treated_as_a_name() {
    let args = strings(&["prog", "--foo"]);
    match parse_command(&args) {
        Command::RunByName(name) => assert_eq!(name, "--foo"),
        other => panic!("expected a run request, got {:?}", other),
    }
}

#[test]
fn extra_arguments_do_not_enter_interactive_mode() {
    let args = strings(&["prog", "backup.sh", "ignored"]);
    assert!(matches!(parse_command(&args), Command::RunByName(_)));
}

#[test]
fn empty_catalog_exits_interactive_mode_immediately() {
    assert_eq!(interactive_startup(0), Some(1));
    assert_eq!(interactive_startup(1), None);
    assert_eq!(interactive_startup(3), None);
}

#[test]
fn module_directory_resolution() {
    assert_eq!(module_dir_candidate("/opt/bin"), "/opt/bin/../src/modules");
    assert_eq!(resolve_module_dir(Some("/opt/src/modules".to_string())), "/opt/src/modules");
    assert_eq!(resolve_module_dir(None), "src/modules");
}

#[test]
fn fixed_texts_are_exact() {
    assert_eq!(about_line(), "modrunner - A simple script runner for shell scripts");
    assert_eq!(usage_line("modrunner"), "Usage: modrunner <script_name>");
    assert_eq!(
        not_found_message("nope.sh", "src/modules"),
        "Script 'nope.sh' not found in src/modules"
    );
    assert_eq!(no_modules_message("src/modules"), "No modules found in src/modules");
}

#[test]
fn string_comparisons() {
    assert!(str_eq("backup.sh", "backup.sh"));
    assert!(!str_eq("backup.sh", "backup.s"));
    assert!(str_le("backup.sh", "cleanup.sh"));
    assert!(str_le("a", "ab"));
    assert!(!str_le("ab", "a"));
    assert!(str_le("same", "same"));
}
