use gsync::config::{Config, RawConfig};

fn strings(value: &serde_json::Value) -> Vec<String> {
    value
        .as_array()
        .unwrap()
        .iter()
        .map(|item| item.as_str().unwrap().to_string())
        .collect()
}

fn raw_config(json: &str) -> RawConfig {
    let value: serde_json::Value = serde_json::from_str(json).unwrap();
    let dir_map = value["dir_map"]
        .as_array()
        .unwrap()
        .iter()
        .map(|pair| {
            let pair = strings(pair);
            (pair[0].clone(), pair[1].clone())
        })
        .collect();
    RawConfig { dir_map, ignored: strings(&value["ignored"]) }
}

fn same(config: &Config, other: &Config) -> bool {
    if config.dir_map.len() != other.dir_map.len() || config.ignored.len() != other.ignored.len() {
        return false;
    }
    for (index, (regex1, path1)) in config.dir_map.iter().enumerate() {
        let (regex2, path2) = &other.dir_map[index];
        if regex1.as_str() != regex2.as_str() || path1 != path2 {
            return false;
        }
    }
    for (index, reg1) in config.ignored.iter().enumerate() {
        let reg2 = &other.ignored[index];
        if reg1.as_str() != reg2.as_str() {
            return false;
        }
    }
    true
}

#[test]
fn test_deserialize_config() {
    let json = r#"
            {
                "dir_map": [
                    ["aaa/bbb", "/usr/local/bin/aaa/bbb"]
                ],
                "ignored": [
                    "ccc/ddd"
                ]
            }
        "#;
    let config = Config::parse_config(Some(raw_config(json))).unwrap();
    let expected = Config::parse_config(Some(RawConfig {
        dir_map: vec![("aaa/bbb".to_string(), "/usr/local/bin/aaa/bbb".to_string())],
        ignored: vec!["ccc/ddd".to_string()],
    }))
    .unwrap();
    assert!(same(&config, &expected));
    assert_eq!(config.dir_map[0].0.as_str(), "aaa/bbb");
    assert_eq!(config.dir_map[0].1, "/usr/local/bin/aaa/bbb");
    assert_eq!(config.ignored[0].as_str(), "ccc/ddd");
}
