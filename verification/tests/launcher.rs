use tmml::launcher::command::{expand, quote, shell_join, shell_join_for};
use tmml::launcher::logfmt::{
    clock_is_defined, clock_is_defined_at, event_block_fails, event_to_lines, event_to_lines_at, format_timestamp_at,
    locate_event, parse_event_block, GameLogEvent,
};
use tmml::launcher::{dir_name_of, emit_plain_lines, parse_java_major, LogItem, OutAssembler};
use tmml::launcher::session::SessionRegistry;

const SAMPLE: &str = "<log4j:Event logger=\"net.minecraft.client.Minecraft\" \
    timestamp=\"1788355881585\" level=\"INFO\" thread=\"Render thread\">\n\
    <log4j:Message><![CDATA[Stopping!]]></log4j:Message>\n\
    </log4j:Event>";

const SAMPLE_NL: &str = "<log4j:Event logger=\"net.minecraft.client.Minecraft\" \
    timestamp=\"1788355881585\" level=\"INFO\" thread=\"Render thread\">\n\
    <log4j:Message><![CDATA[Stopping!]]></log4j:Message>\n\
    </log4j:Event>\n";

fn parse(xml: &str) -> Option<GameLogEvent> {
    assert!(!event_block_fails(xml));
    parse_event_block(xml)
}

fn lines_of(ev: &GameLogEvent) -> Vec<String> {
    assert!(clock_is_defined(ev.timestamp_ms));
    event_to_lines(ev)
}

fn render(items: Vec<LogItem>, out: &mut Vec<String>) {
    for item in items {
        match item {
            LogItem::Line(s) => out.push(s),
            LogItem::Event(ev) => out.extend(lines_of(&ev)),
        }
    }
}

fn push(a: &mut OutAssembler, chunk: &[u8], out: &mut Vec<String>) {
    assert!(a.accepts(chunk));
    render(a.push(chunk), out);
}

fn finish(a: &mut OutAssembler, out: &mut Vec<String>) {
    assert!(a.accepts_finish());
    render(a.finish(), out);
}

#[test]
fn java_major_parsing() {
    assert_eq!(parse_java_major("openjdk version \"21.0.2\" 2024-01-16"), Some(21));
    assert_eq!(parse_java_major("java version \"1.8.0_392\""), Some(8));
    assert_eq!(parse_java_major("java version \"17.0.9\""), Some(17));
    assert_eq!(parse_java_major("no version here"), None);
}

#[test]
fn java_major_without_minor_is_one() {
    assert_eq!(parse_java_major("java version \"1\""), Some(1));
    assert_eq!(parse_java_major("version=  \"1.x\""), Some(1));
    assert_eq!(parse_java_major("version \"x\""), None);
}

#[test]
fn assembler_groups_event_across_chunks() {
    let mut assembler = OutAssembler::default();
    let mut lines: Vec<String> = Vec::new();
    let mid = 40;
    push(&mut assembler, SAMPLE_NL[..mid].as_bytes(), &mut lines);
    push(&mut assembler, SAMPLE_NL[mid..].as_bytes(), &mut lines);
    finish(&mut assembler, &mut lines);
    assert_eq!(lines.len(), 1, "{lines:?}");
    assert!(lines[0].contains("[Render thread/INFO]: Stopping!"));
}

#[test]
fn assembler_groups_event_cut_anywhere() {
    for k in 1..SAMPLE_NL.len() {
        let mut assembler = OutAssembler::default();
        let mut lines: Vec<String> = Vec::new();
        push(&mut assembler, SAMPLE_NL[..k].as_bytes(), &mut lines);
        push(&mut assembler, SAMPLE_NL[k..].as_bytes(), &mut lines);
        finish(&mut assembler, &mut lines);
        assert_eq!(lines.len(), 1, "cut at {k}: {lines:?}");
        assert!(lines[0].contains("[Render thread/INFO]: Stopping!"));
    }
}

#[test]
fn assembler_holds_only_a_possible_opening() {
    let mut assembler = OutAssembler::new();
    let mut lines: Vec<String> = Vec::new();
    push(&mut assembler, b"text <LOG4", &mut lines);
    assert_eq!(lines, vec!["text ".to_string()]);
    push(&mut assembler, b"x and more\n", &mut lines);
    finish(&mut assembler, &mut lines);
    assert_eq!(lines, vec!["text ".to_string(), "<LOG4x and more".to_string()]);
}

#[test]
fn assembler_handles_end_tag_split() {
    let mut assembler = OutAssembler::default();
    let mut lines: Vec<String> = Vec::new();
    let marker = "</log4j:Event>";
    let pos = SAMPLE_NL.find(marker).expect("end tag") + 4;
    push(&mut assembler, SAMPLE_NL[..pos].as_bytes(), &mut lines);
    push(&mut assembler, SAMPLE_NL[pos..].as_bytes(), &mut lines);
    finish(&mut assembler, &mut lines);
    assert_eq!(lines.len(), 1, "{lines:?}");
    assert!(lines[0].contains("[Render thread/INFO]: Stopping!"));
}

#[test]
fn assembler_emits_plain_lines() {
    let mut assembler = OutAssembler::default();
    let mut lines: Vec<String> = Vec::new();
    push(&mut assembler, b"Picked up JAVA_TOOL_OPTIONS\nsecond line\n".as_slice(), &mut lines);
    finish(&mut assembler, &mut lines);
    assert_eq!(lines, vec!["Picked up JAVA_TOOL_OPTIONS".to_string(), "second line".to_string()]);
}

#[test]
fn assembler_split_anywhere_matches_whole() {
    let mut whole = OutAssembler::new();
    let mut a: Vec<String> = Vec::new();
    push(&mut whole, SAMPLE.as_bytes(), &mut a);
    finish(&mut whole, &mut a);
    for k in 1..SAMPLE.len() {
        let mut split = OutAssembler::new();
        let mut b: Vec<String> = Vec::new();
        push(&mut split, &SAMPLE.as_bytes()[..k], &mut b);
        assert!(b.is_empty());
        push(&mut split, &SAMPLE.as_bytes()[k..], &mut b);
        finish(&mut split, &mut b);
        assert_eq!(a, b);
    }
}

#[test]
fn assembler_keeps_text_around_events() {
    let mut assembler = OutAssembler::new();
    let mut lines: Vec<String> = Vec::new();
    let text = format!("before\r\n{}after", SAMPLE);
    push(&mut assembler, text.as_bytes(), &mut lines);
    finish(&mut assembler, &mut lines);
    assert_eq!(lines.len(), 3);
    assert_eq!(lines[0], "before");
    assert!(lines[1].contains("Stopping!"));
    assert_eq!(lines[2], "after");
}

#[test]
fn assembler_finish_flushes_unterminated_event() {
    let mut assembler = OutAssembler::new();
    let mut lines: Vec<String> = Vec::new();
    push(&mut assembler, b"<log4j:Event x=\"1\">\nhalf", &mut lines);
    assert!(lines.is_empty());
    finish(&mut assembler, &mut lines);
    assert_eq!(lines, vec!["<log4j:Event x=\"1\">".to_string(), "half".to_string()]);
}

#[test]
fn plain_lines_drop_empty_and_carriage_returns() {
    assert_eq!(emit_plain_lines(b"a\r\n\r\nb"), vec!["a".to_string(), "b".to_string()]);
    assert!(emit_plain_lines(b"").is_empty());
}

#[test]
fn locate_single_event() {
    let bytes = format!("{}\n{}", "junk\n", SAMPLE);
    let (s, e) = locate_event(bytes.as_bytes()).expect("event");
    assert_eq!(&bytes[s..e], SAMPLE);
}

#[test]
fn parse_sample_event() {
    let ev = parse(SAMPLE).expect("parse");
    assert_eq!(ev.logger, "net.minecraft.client.Minecraft");
    assert_eq!(ev.level, "INFO");
    assert_eq!(ev.thread, "Render thread");
    assert_eq!(ev.message, "Stopping!");
    assert!(ev.extra_lines.is_empty());
}

#[test]
fn render_readable_line() {
    let ev = parse(SAMPLE).unwrap();
    let lines = lines_of(&ev);
    assert_eq!(lines.len(), 1);
    assert!(lines[0].contains("[Render thread/INFO]: Stopping!"));
    assert!(lines[0].starts_with("["));
}

#[test]
fn event_lines_at_a_given_offset() {
    let ev = parse(SAMPLE).unwrap();
    assert!(clock_is_defined_at(ev.timestamp_ms, 0));
    assert_eq!(event_to_lines_at(&ev, 0), vec!["[13:31:21] [Render thread/INFO]: Stopping!".to_string()]);
    assert_eq!(event_to_lines_at(&ev, 3600), vec!["[14:31:21] [Render thread/INFO]: Stopping!".to_string()]);
}

#[test]
fn clock_near_the_end_of_the_range() {
    let last = 253_402_300_799_000i64;
    assert!(clock_is_defined_at(last, 0));
    assert_eq!(format_timestamp_at(last, 0), "23:59:59");
    assert!(!clock_is_defined_at(last, 1));
    assert!(clock_is_defined_at(last, -1));
    assert!(!clock_is_defined(last));
    assert!(clock_is_defined_at(last + 1000, 5));
    assert_eq!(format_timestamp_at(last + 1000, 5), "");
}

#[test]
fn multiline_message_preserved() {
    let xml = "<log4j:Event logger=\"a\" timestamp=\"0\" level=\"ERROR\" thread=\"t\">\n\
               <log4j:Message><![CDATA[first\nsecond]]></log4j:Message>\n\
               </log4j:Event>";
    let ev = parse(xml).unwrap();
    assert_eq!(ev.message, "first\nsecond");
    let lines = lines_of(&ev);
    assert_eq!(lines.len(), 2);
    assert!(lines[1].ends_with("second"));
}

#[test]
fn throwable_collected_as_extra() {
    let xml = "<log4j:Event logger=\"a\" timestamp=\"0\" level=\"ERROR\" thread=\"main\">\n\
               <log4j:Message><![CDATA[boom]]></log4j:Message>\n\
               <log4j:Throwable><![CDATA[java.lang.Exception: x\n\tat foo.Bar.main(Bar.java:1)]]></log4j:Throwable>\n\
               </log4j:Event>";
    let ev = parse(xml).unwrap();
    assert_eq!(ev.message, "boom");
    assert!(ev.extra_lines.join("\n").contains("at foo.Bar.main"));
}

#[test]
fn escaped_message_decoded() {
    let xml = "<log4j:Event logger=\"a\" timestamp=\"0\" level=\"INFO\" thread=\"t\">\
               <log4j:Message>a &amp;&lt;b&gt;</log4j:Message>\
               </log4j:Event>";
    let ev = parse(xml).unwrap();
    assert_eq!(ev.message, "a &<b>");
}

#[test]
fn block_without_event_is_not_parsed() {
    assert_eq!(parse("no event here").map(|e| e.message), None);
}

#[test]
fn expand_replaces_known_and_clears_unknown() {
    let tokens = vec![
        ("natives_directory".to_string(), "/n".to_string()),
        ("launcher_name".to_string(), "tmml".to_string()),
    ];
    let out = expand("-Djava.library.path=${natives_directory} ${launcher_name} ${unknown_token}", &tokens);
    assert_eq!(out, "-Djava.library.path=/n tmml ");
}

#[test]
fn expand_keeps_unclosed_brace_literal() {
    let tokens: Vec<(String, String)> = Vec::new();
    assert_eq!(expand("${oops", &tokens), "${oops");
}

#[test]
fn expand_without_placeholder_is_identity() {
    let tokens = vec![("a".to_string(), "b".to_string())];
    assert_eq!(expand("plain $ text {a}", &tokens), "plain $ text {a}");
}

#[test]
fn shell_join_quotes_spaces_on_posix() {
    let joined = shell_join_for(&["java".to_string(), "-Xmx 2G".to_string(), "net.minecraft".to_string()], false);
    assert!(joined.starts_with("java "));
    assert!(joined.contains("'-Xmx 2G'"));
    let host = shell_join(&["java".to_string()]);
    assert_eq!(host, "java");
}

#[test]
fn quoting_rules() {
    assert_eq!(quote("", false), "''");
    assert_eq!(quote("it's", false), "'it'\\''s'");
    assert_eq!(quote("a/b:c=d", false), "a/b:c=d");
    assert_eq!(quote("a b", true), "\"a b\"");
    assert_eq!(quote("say\"hi\" x", true), "\"say\\\"hi\\\" x\"");
    assert_eq!(quote("plain", true), "plain");
}

#[test]
fn dir_name_prefers_registry_path() {
    let mut info = tmml::instance::InstanceInfo {
        id: "1.21.1".into(),
        version_id: "1.21.1".into(),
        name: "n".into(),
        path: "versions/My Pack".into(),
        created_at: String::new(),
        config: tmml::instance::InstanceConfig::default(),
    };
    assert_eq!(dir_name_of(&info), "My Pack");
    info.path = "versions/a/b".into();
    assert_eq!(dir_name_of(&info), "1.21.1");
    info.path = "elsewhere".into();
    assert_eq!(dir_name_of(&info), "1.21.1");
}

#[test]
fn sessions_register_stop_and_kill_all() {
    let mut reg = SessionRegistry::new();
    let a = reg.register();
    let b = reg.register();
    assert_eq!((a, b), (1, 2));
    assert!(!reg.is_cancelled(a));
    assert!(reg.stop(a));
    assert!(reg.is_cancelled(a));
    assert!(!reg.is_cancelled(b));
    assert!(!reg.stop(99));
    reg.drop_session(a);
    assert!(!reg.is_cancelled(a));
    assert_eq!(reg.kill_all_sessions(), vec![b]);
    assert!(reg.is_cancelled(b));
}

#[test]
fn assembler_keeps_only_the_open_event_pending() {
    let mut assembler = OutAssembler::new();
    let mut lines: Vec<String> = Vec::new();
    let text = format!("noise\n{}tail\n<LOG4J:event level=\"x\">", SAMPLE);
    push(&mut assembler, text.as_bytes(), &mut lines);
    assert_eq!(lines.len(), 3, "{lines:?}");
    assert_eq!(lines[0], "noise");
    assert!(lines[1].contains("Stopping!"));
    assert_eq!(lines[2], "tail");
    finish(&mut assembler, &mut lines);
    assert_eq!(lines.len(), 4);
    assert_eq!(lines[3], "<LOG4J:event level=\"x\">");
}
