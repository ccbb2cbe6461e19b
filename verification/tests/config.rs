use mux::config::{load, parse, Config, ScriptConfig, UrlConfig};

fn text_field(table: &toml::Table, field: &str) -> Result<String, String> {
    match table.get(field).and_then(|v| v.as_str()) {
        Some(s) => Ok(s.to_string()),
        None => Err(format!("missing field `{field}`")),
    }
}

/// Reads a document, as the deserialiser of the application does.
fn read(content: &str) -> Result<Config, String> {
    let table: toml::Table = toml::from_str(content).map_err(|e| e.to_string())?;
    let mut scripts = Vec::new();
    let entries = table.get("scripts").and_then(|v| v.as_array());
    for entry in entries.ok_or("missing field `scripts`")? {
        let entry = entry.as_table().ok_or("expected a table")?;
        scripts.push(ScriptConfig {
            name: text_field(entry, "name")?,
            cmd: text_field(entry, "cmd")?,
        });
    }
    Ok(Config { scripts, urls: None })
}

fn entry(name: &str, cmd: &str) -> ScriptConfig {
    ScriptConfig { name: name.to_string(), cmd: cmd.to_string() }
}

#[test]
fn parse_parses_valid_config() {
    let toml = r#"
[[scripts]]
name = "whiskers"
cmd = "echo meow"

[[scripts]]
name = "paws"
cmd = "echo purr"
"#;
    let config = parse(read(toml)).unwrap();
    assert_eq!(config.scripts.len(), 2);
    assert_eq!(config.scripts[0].name, "whiskers");
    assert_eq!(config.scripts[0].cmd, "echo meow");
    assert_eq!(config.scripts[1].name, "paws");
    assert_eq!(config.scripts[1].cmd, "echo purr");
}

#[test]
fn parse_requires_at_least_one_script() {
    let toml = "scripts = []\n";
    let err = parse(read(toml)).unwrap_err();
    assert!(err.contains("at least one"), "got: {err}");
}

#[test]
fn parse_rejects_duplicate_names() {
    let toml = r#"
[[scripts]]
name = "nyan"
cmd = "echo 1"

[[scripts]]
name = "nyan"
cmd = "echo 2"
"#;
    let err = parse(read(toml)).unwrap_err();
    assert!(err.contains("duplicate"), "got: {err}");
}

#[test]
fn parse_fails_on_invalid_toml() {
    let err = parse(read("this is not toml {{{")).unwrap_err();
    assert!(err.contains("invalid config"), "got: {err}");
}

#[test]
fn parse_fails_on_missing_fields() {
    let toml = r#"
[[scripts]]
name = "kitten"
"#;
    let err = parse(read(toml)).unwrap_err();
    assert!(err.contains("invalid config"), "got: {err}");
}

#[test]
fn messages_are_exact() {
    let none = Config { scripts: vec![], urls: None };
    assert_eq!(parse(Ok(none)).unwrap_err(), "at least one [[scripts]] entry is required");
    assert_eq!(parse(Err("line 3".to_string())).unwrap_err(), "invalid config: line 3");
    let lost = load("mux.toml", Err("no such file".to_string()));
    assert_eq!(lost.unwrap_err(), "failed to read mux.toml: no such file");
    let bad = load("mux.toml", Ok(Err("line 3".to_string())));
    assert_eq!(bad.unwrap_err(), "invalid config: line 3");
}

#[test]
fn the_first_name_that_comes_up_again_is_named() {
    let scripts = vec![entry("a", "1"), entry("b", "1"), entry("b", "2"), entry("a", "2")];
    let err = parse(Ok(Config { scripts, urls: None })).unwrap_err();
    assert_eq!(err, "duplicate script name: b");
}

#[test]
fn load_accepts_what_can_run() {
    let urls = Some(vec![UrlConfig { name: "home".to_string(), url: "http://x".to_string() }]);
    let config = Config { scripts: vec![entry("a", "1")], urls };
    let loaded = load("mux.toml", Ok(Ok(config))).unwrap();
    assert_eq!(loaded.scripts[0].name, "a");
    assert_eq!(loaded.urls.unwrap()[0].url, "http://x");
}

#[test]
fn copies_hold_the_same() {
    let script = entry("a", "run");
    let copy = script.clone();
    assert_eq!((copy.name, copy.cmd), (script.name, script.cmd));
    let url = UrlConfig { name: "home".to_string(), url: "http://x".to_string() };
    let copy = url.clone();
    assert_eq!((copy.name, copy.url), (url.name, url.url));
}
