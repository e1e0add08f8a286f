use tmml::digest::{digest_matches, eq_ignore_case, Sha1Stream};
use tmml::loader::download::sha1_hex;
use tmml::downloader::deserializer::{
    Argument, ArgumentValue, Arguments, Artifact, AssetsIndex, Downloads, DownloadsFile, FeaturesFlag, JavaVersion,
    LatestVersion, LibrariesDownloads, Logging, LoggingClient, LoggingClientFile, OnceLibraries, Rule, SingleVersion,
    StringOrArgument, VersionContent, VersionManifest, OS,
};
use tmml::downloader::minecraft::find_version_url;
use tmml::instance::InstanceConfig;
use tmml::launcher::command::{
    assemble_command, classpath_libraries, shell_join_for, CommandError, LaunchContext, LaunchPaths,
};
use tmml::loader::neoforge::installer::{
    check_declared_version, describe_lib, normalized_runtime_library, runtime_artifact, runtime_display_url,
    runtime_repo_artifact, InstallError, NEOFORGE_REPOS,
};
use tmml::loader::neoforge::profile::ProfileArtifact;
use tmml::platform::Platform;
use tmml::profile::{AuthType, GameProfile};

fn s(x: &str) -> StringOrArgument {
    StringOrArgument::String(x.to_string())
}

fn art(path: &str) -> Artifact {
    Artifact { path: path.into(), sha1: String::new(), size: 0, url: String::new() }
}

fn lib(name: &str, path: &str, rules: Option<Vec<Rule>>) -> OnceLibraries {
    OnceLibraries { rules, downloads: LibrariesDownloads { artifact: art(path) }, classifiers: None, name: name.into() }
}

fn os_rule(action: &str, os: &str) -> Rule {
    Rule { action: action.into(), features: None, os: Some(OS { name: Some(os.into()), arch: None }) }
}

fn resolution_rule() -> Rule {
    Rule {
        action: "allow".into(),
        features: Some(FeaturesFlag {
            is_demo_user: None,
            has_custom_resolution: Some(true),
            has_quick_plays_support: None,
            is_quick_play_singleplayer: None,
            is_quick_play_multiplayer: None,
            is_quick_play_realms: None,
        }),
        os: None,
    }
}

fn content() -> VersionContent {
    VersionContent {
        arguments: Arguments {
            game: vec![
                s("--username"),
                s("${auth_player_name}"),
                s("--uuid"),
                s("${auth_uuid}"),
                s("--clientId"),
                s("${clientid}"),
                StringOrArgument::Argument(Argument {
                    rules: vec![resolution_rule()],
                    value: ArgumentValue::Vec(vec![
                        "--width".into(),
                        "${resolution_width}".into(),
                        "--height".into(),
                        "${resolution_height}".into(),
                    ]),
                }),
            ],
            jvm: vec![s("-Djava.library.path=${natives_directory}"), s("-cp"), s("${classpath}")],
        },
        assets_index: AssetsIndex { id: "17".into(), sha1: "a".into(), size: 1, total_size: 1, url: "u".into() },
        assets: "17".into(),
        compliance_level: 1,
        downloads: Downloads {
            client: Some(DownloadsFile { sha1: "s".into(), size: 1, url: "u".into() }),
            client_mappings: None,
            server: None,
            server_mappings: None,
        },
        id: "1.21.1".into(),
        java_version: JavaVersion { component: "java-runtime-delta".into(), major_version: 21 },
        libraries: vec![
            lib("a:a:1", "a/a/1/a-1.jar", None),
            lib("w:w:1", "w/w/1/w-1.jar", Some(vec![os_rule("disallow", "linux")])),
            lib("n:n:1", "n/n/1/n-1.jar", Some(vec![os_rule("disallow", "windows")])),
        ],
        logging: Logging {
            client: LoggingClient {
                argument: "-Dlog4j.configurationFile=${path}".into(),
                file: LoggingClientFile { id: "client-1.12.xml".into(), sha1: "s".into(), size: 1, url: "u".into() },
                file_type: "log4j2-xml".into(),
            },
        },
        main_class: "net.minecraft.client.main.Main".into(),
        minimum_launcher_version: 21,
        release_time: "t".into(),
        time: "t".into(),
        version_type: "release".into(),
    }
}

fn paths() -> LaunchPaths {
    LaunchPaths {
        game_dir: "/g".into(),
        natives_dir: "/g/natives".into(),
        libraries_root: "/l".into(),
        assets_root: "/as".into(),
        log_config_path: "/as/log_configs/client-1.12.xml".into(),
        client_jar: "/g/1.21.1.jar".into(),
    }
}

fn profile() -> GameProfile {
    GameProfile {
        id: "uuid-1".into(),
        name: "Display".into(),
        auth_type: AuthType::Offline,
        username: Some("Steve".into()),
        auth_data: None,
        created_at: "t".into(),
    }
}

fn config(width: Option<u32>, height: Option<u32>) -> InstanceConfig {
    InstanceConfig {
        launch_command_prefix: vec!["nice".into()],
        launch_command_suffix: vec!["--demo-off".into()],
        jvm_args: vec!["-Xmx2G".into()],
        game_args: vec![],
        width,
        height,
    }
}

fn strings(v: &[&str]) -> Vec<String> {
    v.iter().map(|x| x.to_string()).collect()
}

#[test]
fn classpath_keeps_allowed_libraries() {
    let c = content();
    let linux = Platform::from_consts("linux", "x86_64");
    assert_eq!(classpath_libraries(&c, &linux), strings(&["a/a/1/a-1.jar", "n/n/1/n-1.jar"]));
    let win = Platform::from_consts("windows", "x86_64");
    assert_eq!(classpath_libraries(&c, &win), strings(&["a/a/1/a-1.jar", "w/w/1/w-1.jar"]));
}

#[test]
fn launch_command_words() {
    let c = content();
    let p = paths();
    let cfg = config(Some(854), Some(480));
    let prof = profile();
    let linux = Platform::from_consts("linux", "x86_64");
    let cp = strings(&["/l/a/a/1/a-1.jar", "/g/1.21.1.jar"]);
    let ctx = LaunchContext {
        content: &c,
        paths: &p,
        config: &cfg,
        profile: &prof,
        java_bin: "java",
        launcher_name: "TMML",
        launcher_version: "0.1.0",
        platform: &linux,
        classpath: &cp,
        missing: &[],
        log_config_exists: true,
    };
    let cmd = assemble_command(&ctx, "cid".into(), false).unwrap();
    assert_eq!(
        cmd.argv,
        strings(&[
            "nice",
            "java",
            "-Djava.library.path=/g/natives",
            "-cp",
            "/l/a/a/1/a-1.jar:/g/1.21.1.jar",
            "-Xmx2G",
            "-Dlog4j.configurationFile=/as/log_configs/client-1.12.xml",
            "net.minecraft.client.main.Main",
            "--username",
            "Steve",
            "--uuid",
            "uuid-1",
            "--clientId",
            "cid",
            "--width",
            "854",
            "--height",
            "480",
            "--demo-off",
        ])
    );
    assert_eq!(cmd.display, shell_join_for(&cmd.argv, false));
    assert!(cmd.warnings.is_empty());
}

#[test]
fn launch_command_without_log_config_or_size() {
    let c = content();
    let p = paths();
    let cfg = config(Some(854), None);
    let prof = profile();
    let win = Platform::from_consts("windows", "x86_64");
    let cp = strings(&["C:\\l\\a.jar", "C:\\g\\1.21.1.jar"]);
    let ctx = LaunchContext {
        content: &c,
        paths: &p,
        config: &cfg,
        profile: &prof,
        java_bin: "javaw",
        launcher_name: "TMML",
        launcher_version: "0.1.0",
        platform: &win,
        classpath: &cp,
        missing: &[],
        log_config_exists: false,
    };
    let cmd = assemble_command(&ctx, "cid".into(), true).unwrap();
    assert_eq!(cmd.argv[4], "C:\\l\\a.jar;C:\\g\\1.21.1.jar");
    assert!(!cmd.argv.iter().any(|a| a.starts_with("-Dlog4j")));
    assert!(!cmd.argv.iter().any(|a| a == "--width"));
    assert_eq!(cmd.argv.last().unwrap(), "--demo-off");
    assert_eq!(cmd.warnings.len(), 1);
    assert!(cmd.warnings[0].contains("/as/log_configs/client-1.12.xml"));
}

#[test]
fn launch_command_refused_when_files_missing() {
    let c = content();
    let p = paths();
    let cfg = config(None, None);
    let prof = profile();
    let linux = Platform::from_consts("linux", "x86_64");
    let cp = strings(&["/l/a.jar"]);
    let missing = strings(&["/l/a.jar"]);
    let ctx = LaunchContext {
        content: &c,
        paths: &p,
        config: &cfg,
        profile: &prof,
        java_bin: "java",
        launcher_name: "TMML",
        launcher_version: "0.1.0",
        platform: &linux,
        classpath: &cp,
        missing: &missing,
        log_config_exists: true,
    };
    match assemble_command(&ctx, "cid".into(), false) {
        Err(CommandError::MissingFiles(m)) => assert_eq!(m, missing),
        Ok(_) => panic!("expected missing files"),
    }
}

#[test]
fn launch_command_applies_custom_game_args() {
    let c = content();
    let p = paths();
    let mut cfg = config(None, None);
    cfg.game_args = strings(&["--fullscreen", "--quickPlaySingleplayer", "World"]);
    let prof = profile();
    let linux = Platform::from_consts("linux", "x86_64");
    let cp = strings(&["/l/a/a/1/a-1.jar", "/g/1.21.1.jar"]);
    let ctx = LaunchContext {
        content: &c,
        paths: &p,
        config: &cfg,
        profile: &prof,
        java_bin: "java",
        launcher_name: "TMML",
        launcher_version: "0.1.0",
        platform: &linux,
        classpath: &cp,
        missing: &[],
        log_config_exists: true,
    };
    let cmd = assemble_command(&ctx, "cid".into(), false).unwrap();
    let n = cmd.argv.len();
    assert_eq!(
        cmd.argv[n - 4..].to_vec(),
        strings(&["--fullscreen", "--quickPlaySingleplayer", "World", "--demo-off"])
    );
    assert_eq!(cmd.argv[n - 5], "cid");
}

#[test]
fn sha1_digest_and_hex() {
    assert_eq!(sha1_hex(b"abc"), "a9993e364706816aba3e25717850c26c9cd0d89d");
    assert_eq!(sha1_hex(b""), "da39a3ee5e6b4b0d3255bfef95601890afd80709");
    let d = hex::decode("a9993e364706816aba3e25717850c26c9cd0d89d").unwrap();
    assert!(digest_matches(&d, "A9993E364706816ABA3E25717850C26C9CD0D89D"));
    assert!(!digest_matches(&d, "a9993e364706816aba3e25717850c26c9cd0d89e"));
    let mut h = Sha1Stream::new();
    h.update(b"a");
    h.update(b"");
    h.update(b"bc");
    assert!(h.matches("A9993E364706816ABA3E25717850C26C9CD0D89D"));
    let mut h = Sha1Stream::new();
    h.update(b"abd");
    assert!(!h.matches("a9993e364706816aba3e25717850c26c9cd0d89d"));
    assert_eq!(Sha1Stream::new().hex_digest(), "da39a3ee5e6b4b0d3255bfef95601890afd80709");
    assert!(eq_ignore_case("AbC", "aBc"));
    assert!(!eq_ignore_case("abc", "abcd"));
}

#[test]
fn version_url_of_first_match() {
    let m = VersionManifest {
        latest: LatestVersion { release: "1.21.1".into(), snapshot: "x".into() },
        versions: vec![
            SingleVersion { id: "1.21.1".into(), version_type: "release".into(), url: "u1".into(), time: String::new(), release_time: String::new() },
            SingleVersion { id: "1.21.1".into(), version_type: "release".into(), url: "u2".into(), time: String::new(), release_time: String::new() },
        ],
    };
    assert_eq!(find_version_url(&m, "1.21.1"), Some("u1".to_string()));
    assert_eq!(find_version_url(&m, "1.20"), None);
}

#[test]
fn runtime_artifacts_of_neoforge_libraries() {
    let no_path = lib("net.neoforged:bus:8.0.1", "", None);
    let a = runtime_artifact(&no_path).unwrap();
    assert_eq!(a.path, "net/neoforged/bus/8.0.1/bus-8.0.1.jar");
    assert_eq!((a.sha1.clone(), a.size, a.url.clone()), (None, None, None));
    let r = runtime_repo_artifact(&a);
    assert_eq!(r.bases, strings(&NEOFORGE_REPOS));
    assert_eq!(r.exact_url, None);
    assert_eq!(runtime_display_url(&a), "https://maven.neoforged.net/releases/net/neoforged/bus/8.0.1/bus-8.0.1.jar");

    let mut full = lib("x:y:1", "x/y/1/y-1.jar", None);
    full.downloads.artifact.sha1 = "abc".into();
    full.downloads.artifact.size = 3;
    full.downloads.artifact.url = "https://h/x/y/1/y-1.jar".into();
    let b = runtime_artifact(&full).unwrap();
    assert_eq!(b.sha1.as_deref(), Some("abc"));
    assert_eq!(b.size, Some(3));
    let rb = runtime_repo_artifact(&b);
    assert_eq!(rb.exact_url.as_deref(), Some("https://h/x/y/1/y-1.jar"));
    assert!(rb.bases.is_empty());

    assert!(matches!(runtime_artifact(&lib("bad", "", None)), Err(InstallError::BadCoordinate(n)) if n == "bad"));
}

#[test]
fn runtime_library_normalised() {
    let l = lib("x:y:1", "", Some(vec![os_rule("allow", "linux")]));
    assert_eq!(describe_lib(&l), "x:y:1");
    let n = normalized_runtime_library(l, "x/y/1/y-1.jar".into(), "abc".into(), 3, "https://u".into());
    assert_eq!(n.name, "x:y:1");
    assert_eq!(n.downloads.artifact.path, "x/y/1/y-1.jar");
    assert_eq!(n.downloads.artifact.sha1, "abc");
    assert_eq!(n.downloads.artifact.size, 3);
    assert!(n.rules.is_some());
}

#[test]
fn declared_version_must_match() {
    assert!(check_declared_version(&None, "1.21.1").is_ok());
    assert!(check_declared_version(&Some("1.21.1".into()), "1.21.1").is_ok());
    match check_declared_version(&Some("1.20.4".into()), "1.21.1") {
        Err(InstallError::WrongMinecraft(d, m)) => {
            assert_eq!(d, "1.20.4");
            assert_eq!(m, "1.21.1");
        },
        _ => panic!("expected a mismatch"),
    }
}

#[test]
fn runtime_profile_artifact_with_url_displays_it() {
    let a = ProfileArtifact { path: "p".into(), sha1: None, size: None, url: Some("https://x/p".into()) };
    assert_eq!(runtime_display_url(&a), "https://x/p");
}

#[test]
fn empty_artifact_url_falls_back_to_repositories() {
    let a = ProfileArtifact { path: "p/q.jar".into(), sha1: None, size: Some(4), url: Some(String::new()) };
    let r = runtime_repo_artifact(&a);
    assert_eq!(r.exact_url, None);
    assert_eq!(r.bases, strings(&NEOFORGE_REPOS));
    assert_eq!(r.size, Some(4));
}
