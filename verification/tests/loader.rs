use tmml::downloader::deserializer::{
    Arguments, Artifact, AssetsIndex, Downloads, DownloadsFile, JavaVersion, LibrariesDownloads, Logging,
    LoggingClient, LoggingClientFile, OnceLibraries, StringOrArgument, VersionContent,
};
use tmml::loader::download::{artifact_reusable, candidate_urls, sha1_hex, RepoArtifact};
use tmml::loader::maven::{relative_path_of, split_coordinate};
use tmml::loader::neoforge::catalog::{
    catalog_source, is_legacy_1201, is_stable_release, mc_supports_neoforge, modern_prefix, numeric_tuple,
    parse_minecraft, select_versions, CatalogSource,
};
use tmml::loader::neoforge::installer::{check_install_target, installer_url, neoforge_patch, InstallError};
use tmml::loader::neoforge::processor::{
    classify_data_value, entry_path_safe, expected_sha, is_coordinate, main_class_from_manifest, output_tail,
    DataValue,
};
use tmml::loader::patch::{merge, merge_args, merge_libraries, VersionPatch};
use tmml::loader::{pick_java_bin, LoaderKind};

fn lib(name: &str) -> OnceLibraries {
    OnceLibraries {
        rules: None,
        downloads: LibrariesDownloads {
            artifact: Artifact { path: format!("{}.jar", name), sha1: String::new(), size: 0, url: String::new() },
        },
        classifiers: None,
        name: name.to_string(),
    }
}

fn s(x: &str) -> StringOrArgument {
    StringOrArgument::String(x.to_string())
}

fn dummy_base() -> VersionContent {
    VersionContent {
        arguments: Arguments {
            game: vec![s("--username"), s("${auth_player_name}")],
            jvm: vec![s("-Xmx1G"), s("-cp"), s("${classpath}")],
        },
        assets_index: AssetsIndex { id: "1".into(), sha1: "a".into(), size: 1, total_size: 1, url: "u".into() },
        assets: "1".into(),
        compliance_level: 1,
        downloads: Downloads {
            client: Some(DownloadsFile { sha1: "s".into(), size: 1, url: "u".into() }),
            client_mappings: None,
            server: None,
            server_mappings: None,
        },
        id: "1.21.1".into(),
        java_version: JavaVersion { component: "java-runtime-alpha".into(), major_version: 21 },
        libraries: vec![OnceLibraries {
            rules: None,
            downloads: LibrariesDownloads {
                artifact: Artifact { path: "a/b/1/b-1.jar".into(), sha1: String::new(), size: 0, url: String::new() },
            },
            classifiers: None,
            name: "a:b:1".into(),
        }],
        logging: Logging {
            client: LoggingClient {
                argument: "-x".into(),
                file: LoggingClientFile { id: "i".into(), sha1: "s".into(), size: 1, url: "u".into() },
                file_type: "log4j2".into(),
            },
        },
        main_class: "net.minecraft.client.main.Main".into(),
        minimum_launcher_version: 21,
        release_time: "t".into(),
        time: "t".into(),
        version_type: "release".into(),
    }
}

#[test]
fn sha1_known_vector() {
    assert_eq!(sha1_hex(b"hello world"), "2aae6c35c94fcfb415dbe95f408b9ce91ee846ed");
}

#[test]
fn parse_plain() {
    let c = split_coordinate("net.neoforged:neoforge:21.1.200").unwrap();
    assert_eq!(c.classifier, None);
    assert_eq!(c.extension, "jar");
    let rel = c.relative_path().replace('\\', "/");
    assert_eq!(rel, "net/neoforged/neoforge/21.1.200/neoforge-21.1.200.jar");
}

#[test]
fn parse_classifier() {
    let c = split_coordinate("net.minecraft:client:1.21.1:mappings@txt").unwrap();
    assert_eq!(c.classifier.as_deref(), Some("mappings"));
    assert_eq!(c.extension, "txt");
    let rel = c.relative_path().replace('\\', "/");
    assert_eq!(rel, "net/minecraft/client/1.21.1/client-1.21.1-mappings.txt");
}

#[test]
fn parse_classifier_plain_ext() {
    let c = split_coordinate("net.neoforged:AutoRenamingTool:2.0.3:all").unwrap();
    assert_eq!(c.classifier.as_deref(), Some("all"));
    assert_eq!(c.extension, "jar");
    let rel = c.relative_path().replace('\\', "/");
    assert_eq!(rel, "net/neoforged/AutoRenamingTool/2.0.3/AutoRenamingTool-2.0.3-all.jar");
}

#[test]
fn reject_bad() {
    assert!(split_coordinate("not-a-coordinate").is_err());
}

#[test]
fn coordinate_edge_cases() {
    let e = split_coordinate(":b:c").unwrap_err();
    assert_eq!(e.0, "cannot parse Maven coordinate `:b:c`");
    assert!(split_coordinate("a:b:c:d:e").is_err());
    assert_eq!(relative_path_of("g.h:a:1@zip").as_deref(), Some("g/h/a/1/a-1.zip"));
    assert_eq!(relative_path_of("bad"), None);
}

#[test]
fn support_gate() {
    assert!(!mc_supports_neoforge("1.19.4"));
    assert!(!mc_supports_neoforge("1.20"));
    assert!(mc_supports_neoforge("1.20.1"));
    assert!(mc_supports_neoforge("1.21.1"));
    assert!(mc_supports_neoforge("26.1"));
    assert!(mc_supports_neoforge("26.2"));
    assert!(!mc_supports_neoforge("24w14a"));
    assert!(!mc_supports_neoforge("1.21.5-pre1"));
}

#[test]
fn prefix() {
    assert_eq!(modern_prefix("1.21.1").as_deref(), Some("21.1"));
    assert_eq!(modern_prefix("1.21").as_deref(), Some("21.0"));
    assert_eq!(modern_prefix("1.20.6").as_deref(), Some("20.6"));
    assert_eq!(modern_prefix("1.21.11").as_deref(), Some("21.11"));
    assert_eq!(modern_prefix("26.1").as_deref(), Some("26.1"));
    assert_eq!(modern_prefix("26.2").as_deref(), Some("26.2"));
    assert_eq!(modern_prefix("1.12.2"), None);
    assert_eq!(modern_prefix("24w14a"), None);
}

#[test]
fn parse_26_line() {
    assert_eq!(parse_minecraft("26.2"), Some((26, 2, 0)));
    assert_eq!(parse_minecraft("26.1"), Some((26, 1, 0)));
    assert_eq!(parse_minecraft("1.21.11"), Some((1, 21, 11)));
}

#[test]
fn release_number_edge_cases() {
    assert_eq!(parse_minecraft(""), None);
    assert_eq!(parse_minecraft("..."), None);
    assert_eq!(parse_minecraft("1..2"), Some((1, 2, 0)));
    assert_eq!(parse_minecraft("99999999999999999999"), None);
    assert!(is_legacy_1201("1.20.1"));
    assert!(!is_legacy_1201("1.20.2"));
}

#[test]
fn stable_suffix_judgement() {
    assert!(is_stable_release("21.1.250"));
    assert!(is_stable_release("26.2.0.83"));
    assert!(is_stable_release("1.20.1-47.1.106"));
    assert!(!is_stable_release("21.11.39-beta"));
    assert!(!is_stable_release("26.2.0.80-beta"));
    assert!(!is_stable_release("21.1.200-rc"));
    assert!(!is_stable_release("21.1.1-BETA"));
}

#[test]
fn legacy_sort() {
    assert!(numeric_tuple("1.20.1-47.1.106") > numeric_tuple("1.20.1-47.1.82"));
    assert!(numeric_tuple("21.1.250") > numeric_tuple("21.1.200"));
    assert_eq!(numeric_tuple("7"), (0, 0, 7));
}

#[test]
fn catalogue_selection_is_filtered_and_newest_first() {
    let versions: Vec<String> = vec!["21.1.9", "21.1.200-beta", "21.10.1", "21.1.72", "22.0.1"]
        .into_iter()
        .map(String::from)
        .collect();
    let source = catalog_source("1.21.1").unwrap();
    let picked = select_versions(&source, &versions);
    let names: Vec<&str> = picked.iter().map(|v| v.version.as_str()).collect();
    assert_eq!(names, vec!["21.1.200-beta", "21.1.72", "21.1.9"]);
    assert!(!picked[0].stable);
    assert!(picked[1].stable);
    assert!(matches!(catalog_source("1.20.1"), Some(CatalogSource::Legacy)));
    assert!(catalog_source("1.19.2").is_none());
    let legacy = select_versions(&CatalogSource::Legacy, &["1.20.1-47.1.82".to_string(), "1.20.1-47.1.106".to_string(), "21.1.1".to_string()]);
    assert_eq!(legacy[0].version, "1.20.1-47.1.106");
    assert_eq!(legacy.len(), 2);
}

#[test]
fn merge_preserves_repeated_option_flags() {
    let base_args = vec![s("--add-opens"), s("java.base/java.util.jar=mod")];
    let extra_args = vec![
        s("--add-opens"),
        s("java.base/java.util.jar=mod"),
        s("--add-opens"),
        s("java.base/java.lang.invoke=mod"),
    ];
    let merged = merge_args(base_args, extra_args);
    let flags: Vec<&StringOrArgument> = merged
        .iter()
        .filter(|u| matches!(u, StringOrArgument::String(s) if s == "--add-opens"))
        .collect();
    assert_eq!(flags.len(), 3);
    for (idx, unit) in merged.iter().enumerate() {
        if matches!(unit, StringOrArgument::String(s) if s == "--add-opens") {
            let value = &merged[idx + 1];
            assert!(matches!(value, StringOrArgument::String(v) if v.starts_with("java.")));
        }
    }
}

#[test]
fn merge_overrides_main_and_keeps_base() {
    let base = dummy_base();
    let fabric = OnceLibraries {
        name: "net.fabricmc:fabric-loader:0.16.14".into(),
        rules: None,
        downloads: LibrariesDownloads {
            artifact: Artifact {
                path: "net/fabricmc/fabric-loader/0.16.14/fabric-loader-0.16.14.jar".into(),
                sha1: String::new(),
                size: 0,
                url: String::new(),
            },
        },
        classifiers: None,
    };
    let patch = VersionPatch {
        main_class: "net.fabricmc.loader.impl.launch.knot.KnotClient".into(),
        libraries: vec![fabric, lib("a:b:1")],
        jvm_args: vec![],
        game_args: vec![s("--tweakClass")],
        java_major: None,
    };
    let merged = merge(base, patch);
    assert_eq!(merged.main_class, "net.fabricmc.loader.impl.launch.knot.KnotClient");
    assert_eq!(merged.libraries.len(), 2);
    assert_eq!(merged.libraries[0].name, "a:b:1");
    assert!(merged.arguments.game.iter().any(|u| matches!(u, StringOrArgument::String(s) if s == "--tweakClass")));
    assert!(merged.downloads.client.is_some());
}

#[test]
fn merge_raises_java_version_only_upwards() {
    let patch = |m| VersionPatch {
        main_class: "m".into(),
        libraries: vec![],
        jvm_args: vec![],
        game_args: vec![],
        java_major: Some(m),
    };
    assert_eq!(merge(dummy_base(), patch(17)).java_version.major_version, 21);
    assert_eq!(merge(dummy_base(), patch(25)).java_version.major_version, 25);
}

#[test]
fn merged_libraries_unique_base_first() {
    let out = merge_libraries(vec![lib("x"), lib("y")], vec![lib("y"), lib("z"), lib("z")]);
    let names: Vec<&str> = out.iter().map(|l| l.name.as_str()).collect();
    assert_eq!(names, vec!["x", "y", "z"]);
    assert_eq!(out[1].downloads.artifact.path, "y.jar");
}

#[test]
fn java_bin_choice() {
    assert_eq!(pick_java_bin(&None), "java");
    assert_eq!(pick_java_bin(&Some("  ".into())), "java");
    assert_eq!(pick_java_bin(&Some("/opt/jdk/bin/java".into())), "/opt/jdk/bin/java");
    assert_eq!(LoaderKind::NeoForge.as_str(), "neoforge");
    assert_eq!(LoaderKind::Fabric.as_str(), "fabric");
}

#[test]
fn repo_downloads() {
    let a = RepoArtifact {
        rel_path: "g/a/1/a-1.jar".into(),
        bases: vec!["https://one/".into(), "https://two".into()],
        exact_url: None,
        sha1: None,
        size: Some(3),
    };
    assert_eq!(candidate_urls(&a), vec!["https://one/g/a/1/a-1.jar".to_string(), "https://two/g/a/1/a-1.jar".to_string()]);
    assert!(artifact_reusable(true, Some(3), Some(3)));
    assert!(!artifact_reusable(true, Some(2), Some(3)));
    assert!(artifact_reusable(true, None, None));
    assert!(!artifact_reusable(false, Some(3), Some(3)));
}

#[test]
fn neoforge_installation_rules() {
    assert_eq!(
        installer_url("1.20.1", "47.1.106"),
        "https://maven.neoforged.net/releases/net/neoforged/forge/47.1.106/forge-47.1.106-installer.jar"
    );
    assert_eq!(
        installer_url("1.21.1", "21.1.200"),
        "https://maven.neoforged.net/releases/net/neoforged/neoforge/21.1.200/neoforge-21.1.200-installer.jar"
    );
    assert!(check_install_target("net.minecraft.client.main.Main", "1.21.1").is_ok());
    assert!(matches!(check_install_target("other", "1.21.1"), Err(InstallError::NotVanilla)));
    assert!(matches!(check_install_target("net.minecraft.client.main.Main", "1.19"), Err(InstallError::Unsupported)));
    assert!(matches!(neoforge_patch(None, None, vec![], None), Err(InstallError::MissingMainClass)));
    let p = neoforge_patch(Some("M".into()), None, vec![], Some(21)).unwrap();
    assert_eq!(p.main_class, "M");
    assert_eq!(p.java_major, Some(21));
}

#[test]
fn processor_rules() {
    assert!(is_coordinate("net.minecraft:client:1.21.1:srg"));
    assert!(!is_coordinate("{MINECRAFT_JAR}"));
    assert!(!is_coordinate("a/b:c:d"));
    assert!(!is_coordinate("a:b"));
    assert!(expected_sha(" 2aae6c35c94fcfb415dbe95f408b9ce91ee846ed "));
    assert!(!expected_sha("{PATCHED_SHA}"));
    assert_eq!(
        main_class_from_manifest("Manifest-Version: 1.0\r\nMain-Class:  net.x.Main \r\n").as_deref(),
        Some("net.x.Main")
    );
    assert_eq!(main_class_from_manifest("Manifest-Version: 1.0\n"), None);
    let text: String = (1..=14).map(|i| format!("l{}\n", i)).collect();
    assert_eq!(output_tail(&text), "l3\nl4\nl5\nl6\nl7\nl8\nl9\nl10\nl11\nl12\nl13\nl14");
    assert!(matches!(classify_data_value(" 'abc' "), DataValue::Literal(v) if v == "abc"));
    assert!(matches!(classify_data_value("[g:a:1]"), DataValue::Library(v) if v == "g:a:1"));
    assert!(matches!(classify_data_value("/data/client.lzma"), DataValue::InstallerFile(v) if v == "data/client.lzma"));
    assert!(matches!(classify_data_value("plain"), DataValue::Literal(v) if v == "plain"));
    assert!(entry_path_safe("data/client.lzma"));
    assert!(!entry_path_safe("data\\..\\x"));
}

#[test]
fn coordinate_reads_back_as_its_text() {
    for raw in [
        "net.neoforged:neoforge:21.1.200",
        "net.minecraft:client:1.21.1:mappings@txt",
        "net.neoforged:AutoRenamingTool:2.0.3:all",
        "g:a:v@tar.gz",
    ] {
        let c = split_coordinate(raw).unwrap();
        let mut text = format!("{}:{}:{}", c.group, c.artifact, c.version);
        if let Some(k) = &c.classifier {
            text.push(':');
            text.push_str(k);
        }
        if raw.contains('@') {
            text.push('@');
            text.push_str(&c.extension);
        } else {
            assert_eq!(c.extension, "jar");
        }
        assert_eq!(text, raw);
    }
}
