use osm_world::shell::{shell_arg, shell_command, shell_quote};

#[test]
fn shell_arg_leaves_safe_words_bare() {
    assert_eq!(shell_arg("cargo"), "cargo");
    assert_eq!(shell_arg("--width=1280"), "--width=1280");
    assert_eq!(shell_arg("/tmp/prepared/city.osm"), "/tmp/prepared/city.osm");
    assert_eq!(shell_arg("user@host:8080,a+b%c_d.e"), "user@host:8080,a+b%c_d.e");
}

#[test]
fn shell_arg_quotes_everything_else() {
    assert_eq!(shell_arg("/tmp/osm world/Cargo.toml"), "'/tmp/osm world/Cargo.toml'");
    assert_eq!(shell_arg("$HOME"), "'$HOME'");
    assert_eq!(shell_arg("café"), "'café'");
    assert_eq!(shell_arg("it's"), "'it'\"'\"'s'");
}

#[test]
fn shell_quote_escapes_single_quotes() {
    assert_eq!(shell_quote(""), "''");
    assert_eq!(shell_quote("'"), "''\"'\"''");
    assert_eq!(shell_quote("a'b'c"), "'a'\"'\"'b'\"'\"'c'");
}

#[test]
fn shell_command_joins_quoted_words_with_spaces() {
    let args = vec![
        "run".to_string(),
        "--manifest-path".to_string(),
        "/tmp/project root with 'quote'/Cargo.toml".to_string(),
        "--".to_string(),
        "--input".to_string(),
        "/tmp/city.osm".to_string(),
    ];
    let command = shell_command("cargo", &args);
    assert_eq!(
        command,
        "cargo run --manifest-path '/tmp/project root with '\"'\"'quote'\"'\"'/Cargo.toml' -- --input /tmp/city.osm"
    );
    assert!(command.contains(" -- --input "));
    assert!(command.contains(&shell_quote("/tmp/project root with 'quote'/Cargo.toml")));
}

#[test]
fn shell_command_of_program_alone() {
    assert_eq!(shell_command("cargo", &[]), "cargo");
}
