use tmml::downloader::deserializer::{
    Arguments, Artifact, AssetsIndex, Downloads, DownloadsFile, JavaVersion, LibrariesDownloads, Logging,
    LoggingClient, LoggingClientFile, OnceLibraries, StringOrArgument, VersionContent,
};
use tmml::loader::fabric::api::{
    file_sha1, pick_file, pick_version, project_url, query_url, urlencoding, ModrinthFile, ModrinthVersion,
};
use tmml::loader::fabric::installer::{
    fabric_patch, is_vanilla, library_entry, maven_artifact, plan_fabric_libraries, FABRIC_MAVEN,
};
use tmml::loader::fabric::meta::{
    FabricIntermediaryInfo, FabricLaunchMeta, FabricLauncherMeta, FabricLibraries, FabricLibrary,
    FabricLoaderInfo, FabricMainClass,
};
use tmml::loader::neoforge::processor::{
    base_tokens, data_entry_of, expand_processor_arg, library_path_of, library_rel_path, processor_classpath,
};
use tmml::loader::neoforge::profile::{DataEntry, Processor, ProfileLibrary};

fn pairs(v: &[(&str, &str)]) -> Vec<(String, String)> {
    v.iter().map(|(a, b)| (a.to_string(), b.to_string())).collect()
}

#[test]
fn processor_args_expand() {
    let values = pairs(&[("SIDE", "client"), ("ROOT", "/r")]);
    let libs = pairs(&[("net.x:y:1", "net/x/y/1/y-1.jar")]);
    let e = |raw: &str| expand_processor_arg(raw, &values, &libs, "/libs", '/');
    assert_eq!(e("{ROOT}/out"), "/r/out");
    assert_eq!(e("[net.x:y:1]"), "/libs/net/x/y/1/y-1.jar");
    assert_eq!(e("--side={SIDE}"), "--side=client");
    assert_eq!(e("'{ROOT}'"), "{ROOT}");
    assert_eq!(e("  'lit'  "), "lit");
    assert_eq!(e("{MISSING}"), "{MISSING}");
    assert_eq!(e("[org.a:b:2:all@zip]"), "/libs/org/a/b/2/b-2-all.zip");
    assert_eq!(e("{open"), "{open");
    assert_eq!(e("[open"), "[open");
}

#[test]
fn library_files_resolved() {
    let libs = pairs(&[("net.x:y:1", "custom/y.jar")]);
    assert_eq!(library_path_of("net.x:y:1", &libs, "C:\\libs", '\\'), "C:\\libs\\custom/y.jar");
    assert_eq!(library_path_of("a.b", &libs, "/libs", '/'), "/libs/a/b");
    assert_eq!(library_path_of("g:a:1", &[], "/l", '/'), "/l/g/a/1/a-1.jar");
}

#[test]
fn processor_fixed_tokens() {
    let t = base_tokens("1.21.1", "/root", "/root/libraries", "/tmp/i.jar", "/root/versions/1.21.1/1.21.1.jar");
    assert_eq!(t.len(), 6);
    assert_eq!(t[0], ("SIDE".to_string(), "client".to_string()));
    assert_eq!(t[1], ("MINECRAFT_VERSION".to_string(), "1.21.1".to_string()));
    assert_eq!(t[5].0, "MINECRAFT_JAR");
}

#[test]
fn processor_data_prefers_client() {
    let data = vec![
        ("MAPPINGS".to_string(), DataEntry { client: Some("[a:b:1]".into()), server: Some("x".into()) }),
        ("SERVER_ONLY".to_string(), DataEntry { client: None, server: Some("s".into()) }),
    ];
    assert_eq!(data_entry_of(&data, "MAPPINGS"), Some("[a:b:1]".to_string()));
    assert_eq!(data_entry_of(&data, "SERVER_ONLY"), Some("s".to_string()));
    assert_eq!(data_entry_of(&data, "NONE"), None);
}

#[test]
fn processor_classpath_adds_jar_once() {
    let p = Processor {
        sides: None,
        jar: "j:j:1".into(),
        classpath: Some(vec!["a:a:1".into()]),
        args: None,
        outputs: None,
    };
    assert_eq!(processor_classpath(&p), vec!["a:a:1".to_string(), "j:j:1".to_string()]);
    let q = Processor {
        sides: None,
        jar: "a:a:1".into(),
        classpath: Some(vec!["a:a:1".into()]),
        args: None,
        outputs: None,
    };
    assert_eq!(processor_classpath(&q), vec!["a:a:1".to_string()]);
}

#[test]
fn profile_library_path_from_coordinate() {
    let l = ProfileLibrary { name: "net.neoforged:neoforge:21.1.1".into(), url: None, downloads: None };
    assert_eq!(library_rel_path(&l), "net/neoforged/neoforge/21.1.1/neoforge-21.1.1.jar");
}

#[test]
fn url_encoding_of_bytes() {
    assert_eq!(urlencoding("[\"1.21.1\"]"), "%5B%221.21.1%22%5D");
    assert_eq!(urlencoding("a b~_-."), "a%20b~_-.");
    assert_eq!(urlencoding("é"), "%C3%A9");
}

#[test]
fn modrinth_urls() {
    assert_eq!(project_url("sodium"), "https://api.modrinth.com/v2/project/sodium/version");
    assert_eq!(
        query_url("1.21.1"),
        "https://api.modrinth.com/v2/project/fabric-api/version?game_versions=%5B%221.21.1%22%5D&loaders=%5B%22fabric%22%5D"
    );
}

fn file(name: &str, sha1: Option<&str>) -> ModrinthFile {
    ModrinthFile {
        url: format!("https://cdn/{}", name),
        filename: name.into(),
        size: 1,
        hashes: match sha1 {
            Some(h) => vec![("sha512".to_string(), "x".to_string()), ("sha1".to_string(), h.to_string())],
            None => vec![("sha512".to_string(), "x".to_string())],
        },
    }
}

fn version(id: &str, kind: &str, files: Vec<ModrinthFile>) -> ModrinthVersion {
    ModrinthVersion {
        id: id.into(),
        version_number: id.into(),
        version_type: kind.into(),
        game_versions: vec!["1.21.1".into()],
        loaders: vec!["fabric".into()],
        files,
        dependencies: vec![],
    }
}

#[test]
fn first_release_and_hashed_file_picked() {
    let vs = vec![
        version("b", "beta", vec![]),
        version("r1", "release", vec![file("one.jar", None), file("two.jar", Some("abc"))]),
        version("r2", "release", vec![]),
    ];
    let v = pick_version(&vs).unwrap();
    assert_eq!(v.id, "r1");
    let f = pick_file(v).unwrap();
    assert_eq!(f.filename, "two.jar");
    assert_eq!(file_sha1(f).map(|s| s.as_str()), Some("abc"));
    let unhashed = version("u", "release", vec![file("only.jar", None)]);
    assert_eq!(pick_file(&unhashed).unwrap().filename, "only.jar");
    assert!(file_sha1(pick_file(&unhashed).unwrap()).is_none());
    assert!(pick_file(&version("e", "release", vec![])).is_none());
    assert!(pick_version(&[version("a", "alpha", vec![])]).is_none());
}

#[test]
fn release_without_hashed_file_skipped() {
    let vs = vec![
        version("r0", "release", vec![file("plain.jar", None)]),
        version("b", "beta", vec![file("beta.jar", Some("bbb"))]),
        version("r1", "release", vec![file("hashed.jar", Some("ccc"))]),
    ];
    assert_eq!(pick_version(&vs).unwrap().id, "r1");
    assert!(pick_version(&vs[..2]).is_none());
}

fn base(main_class: &str) -> VersionContent {
    VersionContent {
        arguments: Arguments { game: vec![], jvm: vec![] },
        assets_index: AssetsIndex { id: "1".into(), sha1: "a".into(), size: 1, total_size: 1, url: "u".into() },
        assets: "1".into(),
        compliance_level: 1,
        downloads: Downloads {
            client: Some(DownloadsFile { sha1: "s".into(), size: 1, url: "u".into() }),
            client_mappings: None,
            server: None,
            server_mappings: None,
        },
        id: "1.21.1".into(),
        java_version: JavaVersion { component: "java-runtime-alpha".into(), major_version: 21 },
        libraries: vec![OnceLibraries {
            rules: None,
            downloads: LibrariesDownloads {
                artifact: Artifact { path: "org/ow2/asm/asm/9.6/asm-9.6.jar".into(), sha1: String::new(), size: 0, url: String::new() },
            },
            classifiers: None,
            name: "org.ow2.asm:asm:9.6".into(),
        }],
        logging: Logging {
            client: LoggingClient {
                argument: "-x".into(),
                file: LoggingClientFile { id: "i".into(), sha1: "s".into(), size: 1, url: "u".into() },
                file_type: "log4j2".into(),
            },
        },
        main_class: main_class.into(),
        minimum_launcher_version: 21,
        release_time: "t".into(),
        time: "t".into(),
        version_type: "release".into(),
    }
}

fn flib(name: &str, url: &str, sha1: Option<&str>, size: Option<u64>) -> FabricLibrary {
    FabricLibrary { name: name.into(), url: url.into(), sha1: sha1.map(|s| s.to_string()), size }
}

fn meta() -> FabricLaunchMeta {
    FabricLaunchMeta {
        loader: FabricLoaderInfo { maven: "net.fabricmc:fabric-loader:0.16.0".into(), version: "0.16.0".into(), stable: true },
        intermediary: FabricIntermediaryInfo {
            maven: "net.fabricmc:intermediary:1.21.1".into(),
            version: "1.21.1".into(),
            stable: true,
        },
        launcher_meta: FabricLauncherMeta {
            main_class: FabricMainClass::Sides { client: "net.fabricmc.loader.impl.launch.knot.KnotClient".into(), server: None },
            libraries: FabricLibraries {
                common: vec![
                    flib("net.fabricmc:sponge-mixin:0.15.3", "https://maven.fabricmc.net/", Some("abc"), Some(10)),
                    flib("org.ow2.asm:asm:9.6", "https://maven.fabricmc.net/", None, None),
                    flib("net.fabricmc:sponge-mixin:0.15.3", "https://elsewhere/", None, None),
                ],
                client: vec![],
                server: vec![flib("com.example:srv:1", "https://repo.example//", None, Some(5))],
            },
            launchwrapper: None,
        },
    }
}

#[test]
fn fabric_libraries_planned_in_order() {
    let b = base("net.minecraft.client.main.Main");
    assert!(is_vanilla(&b));
    assert!(!is_vanilla(&base("cpw.mods.bootstraplauncher.BootstrapLauncher")));
    let plan = plan_fabric_libraries(&b, &meta()).unwrap();
    let names: Vec<&str> = plan.iter().map(|p| p.name.as_str()).collect();
    assert_eq!(
        names,
        vec![
            "net.fabricmc:sponge-mixin:0.15.3",
            "com.example:srv:1",
            "net.fabricmc:intermediary:1.21.1",
            "net.fabricmc:fabric-loader:0.16.0",
        ]
    );
    assert_eq!(plan[0].artifact.rel_path, "net/fabricmc/sponge-mixin/0.15.3/sponge-mixin-0.15.3.jar");
    assert_eq!(
        plan[0].artifact.exact_url.as_deref(),
        Some("https://maven.fabricmc.net/net/fabricmc/sponge-mixin/0.15.3/sponge-mixin-0.15.3.jar")
    );
    assert_eq!(plan[0].artifact.sha1.as_deref(), Some("abc"));
    assert_eq!(plan[0].artifact.size, Some(10));
    assert_eq!(plan[1].artifact.exact_url.as_deref(), Some("https://repo.example/com/example/srv/1/srv-1.jar"));
    assert_eq!(plan[3].artifact.sha1, None);
    assert!(plan[3].artifact.exact_url.as_deref().unwrap().starts_with(FABRIC_MAVEN));
}

#[test]
fn fabric_bad_coordinate_fails() {
    let mut m = meta();
    m.launcher_meta.libraries.common.push(flib("bad", "https://x/", None, None));
    assert!(plan_fabric_libraries(&base("net.minecraft.client.main.Main"), &m).is_err());
    assert!(maven_artifact("bad", FABRIC_MAVEN).is_err());
}

#[test]
fn fabric_patch_with_tweaker() {
    let b = base("net.minecraft.client.main.Main");
    let plan = plan_fabric_libraries(&b, &meta()).unwrap();
    let entry = library_entry(plan.into_iter().next().unwrap(), "abc".into(), 10);
    assert_eq!(entry.name, "net.fabricmc:sponge-mixin:0.15.3");
    assert_eq!(entry.downloads.artifact.path, "net/fabricmc/sponge-mixin/0.15.3/sponge-mixin-0.15.3.jar");
    assert_eq!(entry.downloads.artifact.size, 10);
    let p = fabric_patch("net.minecraft.launchwrapper.Launch", vec![entry], Some("net.fabricmc.Tweaker"));
    assert_eq!(p.main_class, "net.minecraft.launchwrapper.Launch");
    assert_eq!(p.libraries.len(), 1);
    assert!(p.jvm_args.is_empty());
    assert!(matches!(&p.game_args[0], StringOrArgument::String(s) if s == "--tweakClass"));
    assert!(matches!(&p.game_args[1], StringOrArgument::String(s) if s == "net.fabricmc.Tweaker"));
    let q = fabric_patch("m", vec![], None);
    assert!(q.game_args.is_empty());
}
