use arch_package_tui::detail::normalize_detail_text;

const RULE: &str = "────────────────────────────";

#[test]
fn info_output_is_rendered_as_labelled_lines() {
    let raw = "Repository      : extra\nName            : btop\nDescription     : A monitor\nEmpty :\nno colon line\n";
    let out = normalize_detail_text("btop", raw);
    let expected = vec![
        "btop",
        RULE,
        "Repository:  extra",
        "Name:        btop",
        "Description: A monitor",
        "",
        "Description:",
        "A monitor",
    ]
    .join("\n");
    assert_eq!(out, expected);
}

#[test]
fn description_key_ignores_case_and_the_last_one_wins() {
    let out = normalize_detail_text("p", "DESCRIPTION: first\ndescription : second\n");
    let expected = vec!["p", RULE, "DESCRIPTION: first", "description: second", "", "Description:", "second"].join("\n");
    assert_eq!(out, expected);
}

#[test]
fn unparsable_output_is_shown_raw() {
    assert_eq!(normalize_detail_text("x", "garbage"), format!("x\n{RULE}\ngarbage"));
}

#[test]
fn long_keys_are_not_cut() {
    let out = normalize_detail_text("p", "Optional Deps : none");
    assert_eq!(out, format!("p\n{RULE}\nOptional Deps: none"));
}

#[test]
fn details_are_asked_of_every_backend_in_turn() {
    let cmds = arch_package_tui::detail::detail_commands("btop");
    let lines: Vec<String> = cmds.iter().map(|c| c.commandline()).collect();
    assert_eq!(
        lines,
        vec!["pacman -Si btop", "yay -Si btop", "paru -Si btop", "aura -Ai btop", "trizen -Si btop"]
    );
}
