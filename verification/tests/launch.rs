use mod_launcher::launch::{
    asset_descriptor, asset_prefix, asset_url, command_line, join_classpath, launch_constants,
    LaunchSettings, Version, VersionManifest, ASSET_HOST,
};
use mod_launcher::rules::{FeatureSet, PlatformContext};
use mod_launcher::template::{resolve, ArgumentSpec};

fn strings(texts: &[&str]) -> Vec<String> {
    texts.iter().map(|text| text.to_string()).collect()
}

fn version(id: &str, url: &str) -> Version {
    Version { id: id.to_string(), url: url.to_string(), sha1: String::new() }
}

fn settings() -> LaunchSettings {
    LaunchSettings {
        player_name: "Test".to_string(),
        version_name: "24w14a".to_string(),
        game_directory: "/run/.minecraft".to_string(),
        assets_root: "/run/assets".to_string(),
        assets_index_name: "16".to_string(),
        uuid: "fa7dae1b-e8ca-4540-9195-356e364db0af".to_string(),
        client_id: String::new(),
        xuid: String::new(),
        user_type: "msa".to_string(),
        version_type: "ModLauncher".to_string(),
        natives_directory: "/run/libraries".to_string(),
        launcher_name: "ModLauncher".to_string(),
        launcher_version: "0.1.0".to_string(),
        classpath: "/run/a.jar;/run/b.jar".to_string(),
    }
}

#[test]
fn find_version_by_id_gives_the_first_with_that_id() {
    let manifest = VersionManifest {
        latest_release: "1.20.4".to_string(),
        latest_snapshot: "24w14a".to_string(),
        versions: vec![
            version("24w14a", "https://example.org/a"),
            version("1.20.4", "https://example.org/b"),
            version("24w14a", "https://example.org/c"),
        ],
    };
    assert_eq!(manifest.find_version_by_id("24w14a").unwrap().url, "https://example.org/a");
    assert_eq!(manifest.find_version_by_id("1.20.4").unwrap().url, "https://example.org/b");
    assert!(manifest.find_version_by_id("1.20").is_none());
    assert!(manifest.find_version_by_id("").is_none());
}

#[test]
fn classpath_entries_are_joined_by_the_separator() {
    assert_eq!(join_classpath(&strings(&["a.jar", "b.jar", "c.jar"]), ";"), "a.jar;b.jar;c.jar");
    assert_eq!(join_classpath(&strings(&["a.jar"]), ";"), "a.jar");
    assert_eq!(join_classpath(&Vec::new(), ";"), "");
    assert_eq!(join_classpath(&strings(&["", ""]), ":"), ":");
    assert_eq!(join_classpath(&strings(&["a", "b"]), ""), "ab");
}

#[test]
fn command_line_puts_the_main_class_between_the_arguments() {
    let line = command_line(
        strings(&["-Xss1M", "-cp", "a.jar"]),
        "net.minecraft.client.main.Main".to_string(),
        strings(&["--username", "Test"]),
    );
    assert_eq!(
        line,
        strings(&["-Xss1M", "-cp", "a.jar", "net.minecraft.client.main.Main", "--username", "Test"])
    );
    assert_eq!(command_line(Vec::new(), "Main".to_string(), Vec::new()), strings(&["Main"]));
}

#[test]
fn asset_is_addressed_by_the_first_two_characters_of_its_hash() {
    let hash = "bdf48ef6b5d0d23bbb02e17d04865216179f510a";
    assert_eq!(asset_prefix(hash), "bd");
    assert_eq!(
        asset_url(hash),
        "https://resources.download.minecraft.net/bd/bdf48ef6b5d0d23bbb02e17d04865216179f510a"
    );
    assert_eq!(asset_prefix("a"), "a");
    assert_eq!(asset_prefix(""), "");
    assert_eq!(asset_prefix("\u{e9}\u{e8}\u{ea}"), "\u{e9}\u{e8}");
    assert_eq!(asset_url("a"), format!("{}a/a", ASSET_HOST));
}

#[test]
fn asset_descriptor_expects_the_hash_as_digest() {
    let hash = "2aae6c35c94fcfb415dbe95f408b9ce91ee846ed";
    let descriptor = asset_descriptor(hash, 11, "assets/objects/2a/x".to_string());
    assert_eq!(descriptor.digest(), hash);
    assert_eq!(descriptor.size(), 11);
    assert_eq!(descriptor.destination(), "assets/objects/2a/x");
    assert_eq!(descriptor.url(), &asset_url(hash));
    assert!(descriptor.accepts(b"hello world"));
}

#[test]
fn launch_constants_hold_every_key_of_the_templates() {
    let constants = launch_constants(&settings());
    let expected = [
        ("auth_player_name", "Test"),
        ("version_name", "24w14a"),
        ("game_directory", "/run/.minecraft"),
        ("assets_root", "/run/assets"),
        ("assets_index_name", "16"),
        ("auth_uuid", "fa7dae1b-e8ca-4540-9195-356e364db0af"),
        ("clientid", ""),
        ("auth_xuid", ""),
        ("user_type", "msa"),
        ("version_type", "ModLauncher"),
        ("natives_directory", "/run/libraries"),
        ("launcher_name", "ModLauncher"),
        ("launcher_version", "0.1.0"),
        ("classpath", "/run/a.jar;/run/b.jar"),
    ];
    for (key, value) in expected {
        assert_eq!(constants.get(key), Some(&value.to_string()));
    }
    assert_eq!(constants.get("resolution_width"), None);
}

#[test]
fn launch_constants_fill_the_argument_templates() {
    let specs = vec![
        ArgumentSpec::Literal("-cp".to_string()),
        ArgumentSpec::Literal("${classpath}".to_string()),
        ArgumentSpec::Literal("-Dminecraft.launcher.brand=${launcher_name}".to_string()),
        ArgumentSpec::Literal("--version".to_string()),
        ArgumentSpec::Literal("${version_name}".to_string()),
    ];
    let platform = PlatformContext { name: "windows".to_string(), arch: "x86_64".to_string() };
    let resolved = resolve(&specs, &launch_constants(&settings()), &FeatureSet::new(), &platform);
    assert_eq!(
        resolved,
        strings(&[
            "-cp",
            "/run/a.jar;/run/b.jar",
            "-Dminecraft.launcher.brand=ModLauncher",
            "--version",
            "24w14a",
        ])
    );
}
