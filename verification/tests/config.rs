use epher::config::{Config, Packages, VisitState};
use epher::envinfo::EnvInfo;

fn sample_config() -> Config {
    Config {
        ip: "127.0.0.1".to_string(),
        packages: vec![
            ("git".to_string(), Packages { url: "https://aaaa".to_string() }),
            ("gh".to_string(), Packages { url: "https://gh".to_string() }),
        ],
    }
}

#[test]
fn visit_mut_correct() {
    let config = sample_config();
    println!("{}", config.toml());
}

#[test]
fn toml_renders_regular_tables() {
    let config = sample_config();
    assert_eq!(
        config.toml(),
        "ip = \"127.0.0.1\"\n\n[packages.git]\nurl = \"https://aaaa\"\n\n[packages.gh]\nurl = \"https://gh\"\n"
    );
}

#[test]
fn toml_of_empty_registry() {
    let config = Config { ip: "0.0.0.0".to_string(), packages: Vec::new() };
    assert_eq!(config.toml(), "ip = \"0.0.0.0\"\n");
}

#[test]
fn descend_tracks_the_packages_table() {
    assert_eq!(VisitState::Root.descend("packages"), VisitState::Packages);
    assert_eq!(VisitState::Root.descend("other"), VisitState::Other);
    assert_eq!(VisitState::Packages.descend("git"), VisitState::Other);
    assert_eq!(VisitState::Other.descend("packages"), VisitState::Other);
}

#[test]
fn envinfo_paths() {
    let mut env = EnvInfo::new("/home/someone", sample_config());
    assert_eq!(env.tmp_path, "/tmp/epher");
    assert_eq!(env.var_tmp_path, "/var/tmp/epher");
    assert_eq!(env.home_path, "/home/someone/.epher");
    env.update("/home/other");
    assert_eq!(env.home_path, "/home/other/.epher");
}
