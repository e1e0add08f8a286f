use tmml::downloader::deserializer::{
    Arguments, Artifact, AssetObject, AssetsIndex, AssetsIndexContent, Downloads, DownloadsFile, JavaVersion,
    LatestVersion, LibrariesDownloads, Logging, LoggingClient, LoggingClientFile, OnceLibraries, SingleVersion,
    VersionContent, VersionManifest,
};
use tmml::downloader::minecraft::{
    asset_tasks, build_tasks, partition_tasks, phase_bytes_total, file_valid, resolve_url, rewrite_path,
    should_emit, DestRoot, TaskKind,
};
use tmml::downloader::provider::{is_fool_version, page_versions, VersionMode};
use tmml::platform::Platform;

fn version(id: &str, kind: &str) -> SingleVersion {
    SingleVersion { id: id.into(), version_type: kind.into(), url: format!("u/{}", id), time: String::new(), release_time: String::new() }
}

fn manifest() -> VersionManifest {
    VersionManifest {
        latest: LatestVersion { release: "1.21.1".into(), snapshot: "24w14a".into() },
        versions: vec![
            version("24w14potato", "snapshot"),
            version("1.21.1", "release"),
            version("24w14a", "snapshot"),
            version("1.21", "release"),
            version("1.20.6", "release"),
        ],
    }
}

#[test]
fn paging_by_kind() {
    let m = manifest();
    let p = page_versions(&m, 2, 1, VersionMode::RELEASE).unwrap();
    assert_eq!(p.versions.iter().map(|v| v.id.as_str()).collect::<Vec<_>>(), vec!["1.21.1", "1.21"]);
    assert_eq!((p.total, p.total_pages, p.has_more), (3, 2, true));
    let p2 = page_versions(&m, 2, 2, VersionMode::RELEASE).unwrap();
    assert_eq!(p2.versions.len(), 1);
    assert!(!p2.has_more);
    let p3 = page_versions(&m, 2, 3, VersionMode::RELEASE).unwrap();
    assert!(p3.versions.is_empty());
    assert!(!p3.has_more);
    let fool = page_versions(&m, 10, 1, VersionMode::FOOL).unwrap();
    assert_eq!(fool.versions.len(), 1);
    assert_eq!(fool.versions[0].id, "24w14potato");
    assert!(page_versions(&m, 0, 1, VersionMode::ALL).is_err());
    assert!(page_versions(&m, 1, 0, VersionMode::ALL).is_err());
    assert!(is_fool_version("26w14a"));
    assert!(!is_fool_version("1.21.1"));
}

#[test]
fn pages_put_together_give_every_version() {
    let m = manifest();
    for size in 1..=6u32 {
        let first = page_versions(&m, size, 1, VersionMode::ALL).unwrap();
        let mut all: Vec<String> = Vec::new();
        for page in 1..=first.total_pages {
            let p = page_versions(&m, size, page, VersionMode::ALL).unwrap();
            all.extend(p.versions.iter().map(|v| v.id.clone()));
        }
        let want: Vec<String> = m.versions.iter().map(|v| v.id.clone()).collect();
        assert_eq!(all, want);
    }
}

#[test]
fn mirror_urls() {
    assert_eq!(rewrite_path("https://libraries.minecraft.net/a/b.jar", "https://m/maven/"), "https://m/maven/a/b.jar");
    assert_eq!(rewrite_path("https://host", "https://m//"), "https://m");
    assert_eq!(rewrite_path("no-scheme", "https://m"), "no-scheme");
    assert_eq!(resolve_url(None, TaskKind::ClientJar, "o", "1.21"), "o");
    assert_eq!(resolve_url(Some(""), TaskKind::ClientJar, "o", "1.21"), "o");
    assert_eq!(resolve_url(Some("https://m/"), TaskKind::ClientJar, "o", "1.21"), "https://m/version/1.21/client");
    assert_eq!(resolve_url(Some("https://m"), TaskKind::VersionJson, "o", "1.21"), "https://m/version/1.21/json");
    assert_eq!(resolve_url(Some("https://m"), TaskKind::Logging, "https://o/x", "1.21"), "https://o/x");
    assert_eq!(resolve_url(Some("https://m"), TaskKind::Asset, "https://o/ab/abc", "1.21"), "https://m/assets/ab/abc");
}

fn content() -> VersionContent {
    let art = |p: &str| Artifact { path: p.into(), sha1: "s".into(), size: 5, url: format!("https://libraries.minecraft.net/{}", p) };
    VersionContent {
        arguments: Arguments { game: vec![], jvm: vec![] },
        assets_index: AssetsIndex { id: "17".into(), sha1: "x".into(), size: 7, total_size: 0, url: "https://o/17.json".into() },
        assets: "17".into(),
        compliance_level: 1,
        downloads: Downloads {
            client: Some(DownloadsFile { sha1: "c".into(), size: 10, url: "https://o/client.jar".into() }),
            client_mappings: None,
            server: None,
            server_mappings: None,
        },
        id: "1.21.1".into(),
        java_version: JavaVersion { component: "j".into(), major_version: 21 },
        libraries: vec![OnceLibraries {
            rules: None,
            downloads: LibrariesDownloads { artifact: art("org/lwjgl/lwjgl.jar") },
            classifiers: Some(vec![
                ("natives-linux".into(), art("org/lwjgl/lwjgl-natives-linux.jar")),
                ("natives-linux-arm64".into(), art("org/lwjgl/lwjgl-natives-linux-arm64.jar")),
            ]),
            name: "org.lwjgl:lwjgl:3".into(),
        }],
        logging: Logging {
            client: LoggingClient {
                argument: "-Dlog4j.configurationFile=${path}".into(),
                file: LoggingClientFile { id: "client.xml".into(), sha1: "l".into(), size: 3, url: "https://o/client.xml".into() },
                file_type: "log4j2-xml".into(),
            },
        },
        main_class: "net.minecraft.client.main.Main".into(),
        minimum_launcher_version: 21,
        release_time: String::new(),
        time: String::new(),
        version_type: "release".into(),
    }
}

#[test]
fn version_files_in_order() {
    let arm = Platform::from_consts("linux", "aarch64");
    let tasks = build_tasks(&content(), None, &arm).unwrap();
    let kinds: Vec<TaskKind> = tasks.iter().map(|t| t.kind).collect();
    assert_eq!(kinds, vec![TaskKind::ClientJar, TaskKind::Library, TaskKind::Native, TaskKind::AssetsIndex, TaskKind::Logging]);
    assert_eq!(tasks[2].dest.parts, vec!["org/lwjgl/lwjgl-natives-linux-arm64.jar".to_string()]);
    assert_eq!(tasks[0].dest.root, DestRoot::VersionDir);
    assert_eq!(tasks[0].dest.parts, vec!["1.21.1.jar".to_string()]);
    assert_eq!(tasks[3].dest.parts, vec!["indexes".to_string(), "17.json".to_string()]);
    assert_eq!(phase_bytes_total(&tasks), Some(10 + 5 + 5 + 7 + 3));
    let phases = partition_tasks(tasks);
    assert_eq!((phases.clients.len(), phases.libraries.len(), phases.indexes.len(), phases.loggings.len()), (1, 2, 1, 1));
    let mut no_client = content();
    no_client.downloads.client = None;
    assert!(build_tasks(&no_client, None, &arm).is_err());
}

#[test]
fn asset_objects() {
    let idx = AssetsIndexContent {
        objects: vec![("icons/a.png".into(), AssetObject { hash: "abcdef".into(), size: 4 })],
        virtual_: true,
        map_to_resources: false,
    };
    let t = asset_tasks(&idx, "https://resources.download.minecraft.net/");
    assert_eq!(t[0].url, "https://resources.download.minecraft.net/ab/abcdef");
    assert_eq!(t[0].dest.parts, vec!["objects".to_string(), "ab".to_string(), "abcdef".to_string()]);
    assert_eq!(t[0].legacy.as_ref().unwrap().parts, vec!["virtual".to_string(), "legacy".to_string(), "icons/a.png".to_string()]);
}

#[test]
fn per_file_decisions() {
    assert!(should_emit(1150, 1000));
    assert!(!should_emit(1100, 1000));
    assert!(!should_emit(5, 1000));
    assert!(!file_valid(false, None, Some(1)));
    assert!(!file_valid(false, None, None));
    assert!(file_valid(true, None, None));
    assert!(!file_valid(true, Some(2), Some(1)));
    assert!(!file_valid(true, None, Some(1)));
    assert!(file_valid(true, Some(1), Some(1)));
}
