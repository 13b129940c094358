use cargo_vet::help::{cmd_help_md, HelpPage};

fn page(name: &str, help: &str, subcommands: Vec<HelpPage>) -> HelpPage {
    HelpPage { name: name.to_string(), help: help.to_string(), subcommands }
}

const INTRO: &str = "# cargo vet CLI manual\n\n> This manual can be regenerated with `cargo vet help-markdown`\n\n";

#[test]
fn manual_of_one_command() {
    let help = "cargo-vet 0.1.0
Supply-chain security for Rust

USAGE:
    vet [OPTIONS]
    other line

Some notes:
    -x is no heading:
OPTIONS:
        --all
            All of them
            
            [possible values: off, error]
    <ARG>
    [default: warn]
 indented:
SUBCOMMANDS:
    init
            initialize
    fmt
";
    let expected = "Version: `cargo-vet 0.1.0`

Supply-chain security for Rust

### USAGE
```
vet [OPTIONS]
```
other line

### Some notes
#### `-x is no heading:`
### OPTIONS
#### `--all`
All of them

\\[possible values: off, error]  
#### `<ARG>`
\\[default: warn]  
indented:
### SUBCOMMANDS
* [init](#cargo-vet-init): initialize
* [fmt](#cargo-vet-fmt): 
";
    let manual = cmd_help_md(&page("vet", help, vec![]));
    assert_eq!(manual, format!("{}{}", INTRO, expected));
}

#[test]
fn manual_of_a_subcommand() {
    let root = page("vet", "v 1\n", vec![page("init", "init\nUSAGE:\n    init [OPTIONS]\n", vec![])]);
    let expected = "Version: `v 1`\n\n\n<br><br><br>\n## cargo vet init \n### cargo vet init USAGE\n```\ncargo vet init [OPTIONS]\n```\n\n";
    assert_eq!(cmd_help_md(&root), format!("{}{}", INTRO, expected));
}

#[test]
fn every_command_has_a_page_and_the_last_comes_first() {
    let root = page(
        "vet",
        "v",
        vec![
            page("a", "a", vec![page("a1", "a1", vec![]), page("a2", "a2", vec![])]),
            page("b", "b", vec![page("b1", "b1", vec![])]),
        ],
    );
    let manual = cmd_help_md(&root);
    let mut titles = Vec::new();
    for line in manual.lines() {
        if let Some(title) = line.strip_prefix("## cargo vet ") {
            titles.push(title.trim().to_string());
        }
    }
    assert_eq!(titles, vec!["b", "b1", "a", "a2", "a1"]);
}

#[test]
fn a_heading_in_small_letters_keeps_the_section() {
    let help = "v\nUSAGE:\n    vet a\nNote:\n    vet b\nOPTIONS:\n    vet c\n";
    let expected = "Version: `v`\n\n### USAGE\n```\nvet a\n```\n### Note\n```\nvet b\n```\n### OPTIONS\nvet c\n\n";
    assert_eq!(cmd_help_md(&page("vet", help, vec![])), format!("{}{}", INTRO, expected));
}
