use rtools::config::{boolean_from_lowered, key_path, parse_boolean, parse_ini, parse_key_value};

#[test]
fn ini_values_go_by_section_and_key() {
    let values = parse_ini(
        "# comment\n; other comment\ntop = 1\n\n[app]\nname = demo \n  debug=true\n[db]\nhost = a=b\nbroken line\n[app]\nname = again\n",
    );
    assert_eq!(values.len(), 4);
    assert_eq!(values.get("top"), Some(&"1".to_string()));
    assert_eq!(values.get("app.name"), Some(&"again".to_string()));
    assert_eq!(values.get("app.debug"), Some(&"true".to_string()));
    assert_eq!(values.get("db.host"), Some(&"a=b".to_string()));
    assert_eq!(values.get("name"), None);
    assert_eq!(values.name_at(0), "top");
    assert_eq!(values.name_at(1), "app.name");
}

#[test]
fn ini_edge_cases() {
    assert!(parse_ini("").is_empty());
    assert!(parse_ini("[only]\n").is_empty());
    let values = parse_ini("[]\nk=v\n[s]\n=x\n[\nq = \n");
    assert_eq!(values.get("k"), Some(&"v".to_string()));
    assert_eq!(values.get("s."), Some(&"x".to_string()));
    assert_eq!(values.get("s.q"), Some(&"".to_string()));
    assert_eq!(values.len(), 3);
}

#[test]
fn key_value_text_has_no_sections() {
    let values = parse_key_value("# c\nport = 8080\nname=x y\n; semi = 1\n[sect]\nport = 9\n");
    assert_eq!(values.get("port"), Some(&"9".to_string()));
    assert_eq!(values.get("name"), Some(&"x y".to_string()));
    assert_eq!(values.get("; semi"), Some(&"1".to_string()));
    assert_eq!(values.get("sect.port"), None);
    assert_eq!(values.len(), 3);
}

#[test]
fn booleans_by_name() {
    for t in ["true", "TRUE", "Yes", "1"] {
        assert_eq!(parse_boolean(t), Some(true));
    }
    for f in ["false", "False", "NO", "0"] {
        assert_eq!(parse_boolean(f), Some(false));
    }
    for n in ["", "2", "on", " true", "y"] {
        assert_eq!(parse_boolean(n), None);
    }
    assert_eq!(boolean_from_lowered("TRUE"), None);
    assert_eq!(boolean_from_lowered("true"), Some(true));
}

#[test]
fn key_paths_split_at_dots() {
    assert_eq!(key_path("app.name"), vec!["app", "name"]);
    assert_eq!(key_path("plain"), vec!["plain"]);
    assert_eq!(key_path(""), vec![""]);
    assert_eq!(key_path("a..b."), vec!["a", "", "b", ""]);
}
