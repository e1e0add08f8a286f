use tmml::config::{apply_config_update, requested_profile_id, MainConfig, MainConfigUpdate};
use tmml::launcher::natives::{native_entry_target, resolve_native_tasks, NativeTask};
use tmml::launcher::{exit_report, java_verdict, missing_natives, ExitKind, GamePump, JavaVerdict, LogItem};
use tmml::log::{colour_of, format_log_line, LogLevel};
use tmml::platform::Platform;
use tmml::runtime::{LastLaunchedInstance, RuntimeState};
use tmml::skin::{
    avatar_data_url, avatar_lookup_allowed, crop_face, crop_face_pixels, normalize_url, textures_payloads, AvatarError,
    FaceError, SkinImage,
};

use tmml::downloader::deserializer::{
    Arguments, Artifact, AssetsIndex, Downloads, DownloadsFile, JavaVersion, LibrariesDownloads, Logging,
    LoggingClient, LoggingClientFile, OnceLibraries, VersionContent,
};

fn lines(items: Vec<LogItem>) -> Vec<String> {
    items
        .into_iter()
        .map(|i| match i {
            LogItem::Line(s) => s,
            LogItem::Event(_) => panic!("unexpected event"),
        })
        .collect()
}

#[test]
fn config_update_clamps_and_trims() {
    let mut c = MainConfig::default();
    let mut u = MainConfigUpdate::default();
    u.download_concurrency = Some(0);
    u.mirror_url = Some("  https://mirror.example  ".to_string());
    u.default_width = Some(1024);
    u.default_height = Some(0);
    u.default_profile_id = Some("   ".to_string());
    u.default_jvm_args = Some(vec!["-Xmx2G".to_string()]);
    apply_config_update(&mut c, u);
    assert_eq!(c.download_concurrency, 1);
    assert_eq!(c.mirror_url.as_deref(), Some("https://mirror.example"));
    assert_eq!(c.default_width, 1024);
    assert_eq!(c.default_height, 1);
    assert_eq!(c.default_profile_id, None);
    assert_eq!(c.default_jvm_args, vec!["-Xmx2G".to_string()]);
    assert_eq!(c.accent_color, 0x4a92cb);
    assert!(c.default_game_args.is_empty());
}

#[test]
fn config_update_blank_mirror_clears_it() {
    let mut c = MainConfig::default();
    c.mirror_url = Some("https://old".to_string());
    let mut u = MainConfigUpdate::default();
    u.mirror_url = Some(String::new());
    u.accent_color = Some(0x112233);
    apply_config_update(&mut c, u);
    assert_eq!(c.mirror_url, None);
    assert_eq!(c.accent_color, 0x112233);
    assert_eq!(c.download_concurrency, 16);
}

#[test]
fn config_defaults_and_concurrency() {
    let mut c = MainConfig::default();
    assert_eq!(c.concurrency(), 16);
    c.download_concurrency = 0;
    assert_eq!(c.concurrency(), 1);
    let d = c.instance_defaults();
    assert_eq!(d.width, Some(800));
    assert_eq!(d.height, Some(600));
}

#[test]
fn requested_profile_is_trimmed() {
    assert_eq!(requested_profile_id(Some("  abc ")), Some("abc".to_string()));
    assert_eq!(requested_profile_id(Some(" \t ")), None);
    assert_eq!(requested_profile_id(None), None);
}

#[test]
fn last_launched_reads_back() {
    let mut s = RuntimeState::default();
    assert!(s.last_launched().is_none());
    s.record_last_launched(LastLaunchedInstance {
        version_id: "1.21.1".into(),
        name: "Main".into(),
        dir: "main".into(),
    });
    let r = s.last_launched().unwrap();
    assert_eq!(r.version_id, "1.21.1");
    assert_eq!(r.name, "Main");
    assert_eq!(r.dir, "main");
}

#[test]
fn log_line_layout() {
    assert_eq!(
        format_log_line(LogLevel::Warn, "12:00:00", "tmml", "hi"),
        "\x1b[33m12:00:00 | tmml | WARN  | hi\x1b[0m\n"
    );
    assert_eq!(
        format_log_line(LogLevel::Info, "t", "x", "y"),
        "\x1b[0mt | x | INFO  | y\x1b[0m\n"
    );
    assert_eq!(colour_of(LogLevel::Error), "\x1b[31m");
    assert_eq!(colour_of(LogLevel::Trace), "\x1b[34m");
}

#[test]
fn skin_url_goes_https() {
    assert_eq!(normalize_url("http://textures.minecraft.net/a"), "https://textures.minecraft.net/a");
    assert_eq!(normalize_url("https://x/y"), "https://x/y");
    assert_eq!(normalize_url("ftp://x"), "ftp://x");
}

#[test]
fn avatar_names_checked() {
    assert!(!avatar_lookup_allowed(""));
    assert!(avatar_lookup_allowed("Steve"));
    assert!(avatar_lookup_allowed("abcdefghijklmnop"));
    assert!(!avatar_lookup_allowed("abcdefghijklmnopq"));
}

fn skin_pixels(w: u32, h: u32) -> Vec<u8> {
    let mut px = Vec::new();
    for y in 0..h {
        for x in 0..w {
            px.extend_from_slice(&[x as u8, y as u8, 7, 255]);
        }
    }
    px
}

#[test]
fn face_is_cut_from_eight_eight() {
    let img = SkinImage { width: 16, height: 16, rgba: true, pixels: skin_pixels(16, 16) };
    let face = crop_face_pixels(&img).unwrap();
    assert_eq!(face.len(), 256);
    assert_eq!(&face[0..4], &[8, 8, 7, 255]);
    assert_eq!(&face[4..8], &[9, 8, 7, 255]);
    assert_eq!(&face[32..36], &[8, 9, 7, 255]);
    assert_eq!(&face[252..256], &[15, 15, 7, 255]);
}

#[test]
fn face_errors() {
    let small = SkinImage { width: 8, height: 16, rgba: true, pixels: skin_pixels(8, 16) };
    assert!(matches!(crop_face_pixels(&small), Err(FaceError::TooSmall(8, 16))));
    let rgb = SkinImage { width: 16, height: 16, rgba: false, pixels: vec![0; 16 * 16 * 3] };
    assert!(matches!(crop_face_pixels(&rgb), Err(FaceError::NotRgba)));
}

fn encode(w: u32, h: u32, px: &[u8]) -> Vec<u8> {
    let mut out = Vec::new();
    {
        let mut e = png::Encoder::new(&mut out, w, h);
        e.set_color(png::ColorType::Rgba);
        e.set_depth(png::BitDepth::Eight);
        let mut wr = e.write_header().unwrap();
        wr.write_image_data(px).unwrap();
    }
    out
}

#[test]
fn avatar_png_is_the_face() {
    let skin = encode(64, 64, &skin_pixels(64, 64));
    let face_png = crop_face(&skin).unwrap();
    let dec = png::Decoder::new(std::io::Cursor::new(face_png));
    let mut reader = dec.read_info().unwrap();
    let mut buf = vec![0u8; reader.output_buffer_size().unwrap()];
    let info = reader.next_frame(&mut buf).unwrap();
    assert_eq!((info.width, info.height), (8, 8));
    assert_eq!(&buf[0..4], &[8, 8, 7, 255]);
    assert_eq!(&buf[252..256], &[15, 15, 7, 255]);
}

#[test]
fn avatar_errors() {
    assert!(matches!(crop_face(b"not a png"), Err(AvatarError::Decode)));
    let tiny = encode(8, 8, &skin_pixels(8, 8));
    assert!(matches!(crop_face(&tiny), Err(AvatarError::TooSmall(8, 8))));
}

#[test]
fn avatar_data_url_encodes_base64() {
    assert_eq!(avatar_data_url(b"abc"), "data:image/png;base64,YWJj");
}

#[test]
fn pump_splits_lines_and_kills_once() {
    let mut p = GamePump::new();
    assert!(p.accepts(b"hello\nwor"));
    let s = p.feed(b"hello\nwor", false);
    assert_eq!(lines(s.items), vec!["hello".to_string(), "wor".to_string()]);
    assert!(!s.kill);
    assert!(p.accepts(b"ld\r\n\n<log4j:Event logger"));
    let s = p.feed(b"ld\r\n\n<log4j:Event logger", true);
    assert_eq!(lines(s.items), vec!["ld".to_string()]);
    assert!(s.kill);
    assert!(p.killed());
    let s = p.feed(b"", true);
    assert!(!s.kill);
    assert!(s.items.is_empty());
    assert!(p.accepts_end());
    assert_eq!(lines(p.end()), vec!["<log4j:Event logger".to_string()]);
}

#[test]
fn exit_reports() {
    assert_eq!(exit_report(false, Some((0, true))), (Some(0), ExitKind::Normal));
    assert_eq!(exit_report(true, Some((137, false))), (Some(137), ExitKind::Stopped));
    assert_eq!(exit_report(false, Some((1, false))), (Some(1), ExitKind::Crashed));
    assert_eq!(exit_report(false, None), (Some(-1), ExitKind::WaitFailed));
}

#[test]
fn missing_native_jars_listed_in_order() {
    let tasks = vec![
        NativeTask { source: "a.jar".into() },
        NativeTask { source: "b.jar".into() },
        NativeTask { source: "c.jar".into() },
    ];
    assert_eq!(missing_natives(&tasks, &[true, false, false]), vec!["b.jar".to_string(), "c.jar".to_string()]);
    assert!(missing_natives(&tasks, &[true, true, true]).is_empty());
}

#[test]
fn native_entries_filtered() {
    assert_eq!(native_entry_target("org/lwjgl/liblwjgl.so", false), Some("liblwjgl.so".to_string()));
    assert_eq!(native_entry_target("a/ b.dll ", false), Some("b.dll".to_string()));
    assert_eq!(native_entry_target("META-INF", false), None);
    assert_eq!(native_entry_target("x/meta-inf.txt", false), None);
    assert_eq!(native_entry_target("x/LWJGL.SF", false), None);
    assert_eq!(native_entry_target("x/key.rsa", false), None);
    assert_eq!(native_entry_target(".hidden", false), None);
    assert_eq!(native_entry_target("dir/", false), None);
    assert_eq!(native_entry_target("dir/lib.dll", true), None);
}

fn art(path: &str) -> Artifact {
    Artifact { path: path.into(), sha1: String::new(), size: 0, url: String::new() }
}

fn content(libraries: Vec<OnceLibraries>) -> VersionContent {
    VersionContent {
        arguments: Arguments { game: vec![], jvm: vec![] },
        assets_index: AssetsIndex { id: "1".into(), sha1: "a".into(), size: 1, total_size: 1, url: "u".into() },
        assets: "1".into(),
        compliance_level: 1,
        downloads: Downloads {
            client: Some(DownloadsFile { sha1: "s".into(), size: 1, url: "u".into() }),
            client_mappings: None,
            server: None,
            server_mappings: None,
        },
        id: "1.21.1".into(),
        java_version: JavaVersion { component: "java-runtime-alpha".into(), major_version: 21 },
        libraries,
        logging: Logging {
            client: LoggingClient {
                argument: "-x".into(),
                file: LoggingClientFile { id: "i".into(), sha1: "s".into(), size: 1, url: "u".into() },
                file_type: "log4j2".into(),
            },
        },
        main_class: "net.minecraft.client.main.Main".into(),
        minimum_launcher_version: 21,
        release_time: "t".into(),
        time: "t".into(),
        version_type: "release".into(),
    }
}

#[test]
fn native_tasks_from_both_layouts() {
    let old_layout = OnceLibraries {
        rules: None,
        downloads: LibrariesDownloads { artifact: art("org/lwjgl/lwjgl/3.2.2/lwjgl-3.2.2.jar") },
        classifiers: Some(vec![
            ("natives-windows".into(), art("org/lwjgl/lwjgl-natives-windows.jar")),
            ("natives-linux".into(), art("org/lwjgl/lwjgl-natives-linux.jar")),
        ]),
        name: "org.lwjgl:lwjgl:3.2.2".into(),
    };
    let new_layout = OnceLibraries {
        rules: None,
        downloads: LibrariesDownloads { artifact: art("org/lwjgl/glfw-natives-linux.jar") },
        classifiers: None,
        name: "org.lwjgl:lwjgl-glfw:3.3.3:natives-linux".into(),
    };
    let other_os = OnceLibraries {
        rules: None,
        downloads: LibrariesDownloads { artifact: art("org/lwjgl/glfw-natives-windows.jar") },
        classifiers: None,
        name: "org.lwjgl:lwjgl-glfw:3.3.3:natives-windows".into(),
    };
    let plain = OnceLibraries {
        rules: None,
        downloads: LibrariesDownloads { artifact: art("a/b/1/b-1.jar") },
        classifiers: None,
        name: "a:b:1".into(),
    };
    let c = content(vec![old_layout, plain, new_layout, other_os]);
    let p = Platform::from_consts("linux", "x86_64");
    let tasks = resolve_native_tasks(&c, &p);
    let sources: Vec<&str> = tasks.iter().map(|t| t.source.as_str()).collect();
    assert_eq!(sources, vec!["org/lwjgl/lwjgl-natives-linux.jar", "org/lwjgl/glfw-natives-linux.jar"]);
}

#[test]
fn java_checked_against_requirement() {
    assert_eq!(java_verdict(Some(21), 21), JavaVerdict::Suitable);
    assert_eq!(java_verdict(Some(17), 21), JavaVerdict::TooOld);
    assert_eq!(java_verdict(Some(25), 8), JavaVerdict::Suitable);
    assert_eq!(java_verdict(None, 21), JavaVerdict::Unknown);
}

#[test]
fn textures_properties_decoded_in_order() {
    let props = vec![
        ("other".to_string(), "eyJ0ZXh0dXJlcyI6e319".to_string()),
        ("textures".to_string(), "eyJ0ZXh0dXJlcyI6e319".to_string()),
        ("textures".to_string(), "not base64!".to_string()),
    ];
    let r = textures_payloads(&props);
    assert_eq!(r.len(), 2);
    assert_eq!(r[0].as_deref(), Some(&b"{\"textures\":{}}"[..]));
    assert!(r[1].is_none());
    assert!(textures_payloads(&[]).is_empty());
}
