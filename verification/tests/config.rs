use roost::codec::parse_yaml;
use roost::config::{multipliers_from, multipliers_to_write, override_from, registries_from};
use roost::json::Json;

fn docker(y: &str, key: &str) -> Json {
    let v = parse_yaml(y.as_bytes()).unwrap();
    v.get_at_path(&format!("docker.{key}")).unwrap().copy()
}

fn overhead(y: &str, key: &str) -> Json {
    docker(y, &format!("overhead.{key}"))
}

#[test]
fn registries_accept_wings_map_shape() {
    let y = r#"
docker:
  registries:
    docker.io:
      username: u1
      password: p1
    ghcr.io:
      username: u2
      password: p2
"#;
    let registries = registries_from(&docker(y, "registries")).unwrap();
    assert_eq!(registries.len(), 2);
    let dio = registries.iter().find(|r| r.name == "docker.io").unwrap();
    assert_eq!(dio.username, "u1");
    assert_eq!(dio.password, "p1");
}

#[test]
fn registries_accept_sequence_shape() {
    let y = "docker:\n  registries: []\n";
    assert!(registries_from(&docker(y, "registries")).unwrap().is_empty());

    let y = "docker:\n  registries:\n    - name: docker.io\n      username: u\n      password: p\n";
    let registries = registries_from(&docker(y, "registries")).unwrap();
    assert_eq!(registries[0].name, "docker.io");
    assert_eq!(registries[0].username, "u");
}

#[test]
fn overhead_accepts_wings_map_shape() {
    let y = "docker:\n  overhead:\n    override: false\n    default_multiplier: 1.05\n    multipliers: {}\n";
    assert!(!override_from(&docker(y, "overhead")).unwrap());
    assert!(multipliers_from(&overhead(y, "multipliers")).unwrap().is_empty());

    let y = "docker:\n  overhead:\n    override: true\n    default_multiplier: 1.05\n    multipliers:\n      2048: 1.15\n      4096: 1.10\n";
    assert!(override_from(&docker(y, "overhead")).unwrap());
    let multipliers = multipliers_from(&overhead(y, "multipliers")).unwrap();
    assert_eq!(multipliers.len(), 2);
    let m = multipliers.iter().find(|m| m.memory == 4096).unwrap();
    assert!((m.overhead.parse::<f32>().unwrap() - 1.10).abs() < 1e-6);

    let y = "docker:\n  overhead:\n    multipliers:\n      \"2048\": 1.15\n";
    let multipliers = multipliers_from(&overhead(y, "multipliers")).unwrap();
    assert_eq!(multipliers[0].memory, 2048);

    let y = "docker:\n  overhead:\n    multipliers:\n      - memory: 2048\n        overhead: 1.2\n";
    let multipliers = multipliers_from(&overhead(y, "multipliers")).unwrap();
    assert_eq!(multipliers[0].overhead.parse::<f32>().unwrap(), 1.2);

    let mut written = serde_yaml::Mapping::new();
    for m in multipliers_to_write(&multipliers) {
        let factor: f64 = m.overhead.parse().unwrap();
        written.insert(serde_yaml::Value::from(m.memory), serde_yaml::Value::from(factor));
    }
    let out = serde_yaml::to_string(&written).unwrap();
    assert!(out.contains("2048: 1.2"), "{out}");
}

#[test]
fn overhead_accepts_legacy_override_multiplier_key() {
    let y = "docker:\n  overhead:\n    override_multiplier: true\n";
    assert!(override_from(&docker(y, "overhead")).unwrap());
}

#[test]
fn overhead_refuses_both_keys_and_other_types() {
    let y = "docker:\n  overhead:\n    override: true\n    override_multiplier: true\n";
    assert!(override_from(&docker(y, "overhead")).is_none());
    let y = "docker:\n  overhead:\n    override: 1\n";
    assert!(override_from(&docker(y, "overhead")).is_none());
    assert!(multipliers_from(&Json::Bool(true)).is_none());
    assert!(registries_from(&Json::Bool(true)).is_none());
}

#[test]
fn multipliers_are_written_by_memory() {
    let y = "docker:\n  overhead:\n    multipliers:\n      - memory: 4096\n        overhead: 1.1\n      - memory: 2048\n        overhead: 1.2\n";
    let written = multipliers_to_write(&multipliers_from(&overhead(y, "multipliers")).unwrap());
    assert_eq!(written.iter().map(|m| m.memory).collect::<Vec<i64>>(), vec![2048, 4096]);
}
