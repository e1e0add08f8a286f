//! The command that launches the game.
//!
//! The version's own arguments (`arguments.jvm` / `arguments.game`, with
//! their rules and `${token}` placeholders) are expanded first; the
//! instance's command prefix and suffix, extra JVM arguments, window size
//! and Java executable are then put around them.

use vstd::prelude::*;

use crate::downloader::deserializer::{ArgumentValue, StringOrArgument, VersionContent};
use crate::instance::InstanceConfig;
use crate::platform::{
    features_default, opt_rules_view, rules_allow, rules_allow_spec, FeatureState, Platform,
};
use crate::profile::GameProfile;
use crate::text::{
    chars_of, extend_chars, find, find_chars, find_from, is_blank, join, join_strings,
    lemma_find_from_bounds, lemma_find_shift, replace, replace_str, string_of, strings_view, trim,
};

verus! {

// ---------------------------------------------------------------------------
// Placeholders
// ---------------------------------------------------------------------------

/// Key/value pairs by their characters.
pub open spec fn pairs_view(t: Seq<(String, String)>) -> Seq<(Seq<char>, Seq<char>)> {
    Seq::new(t.len(), |i: int| (t[i].0@, t[i].1@))
}

/// The value registered for `key`: that of the first pair with the key.
pub open spec fn lookup(tokens: Seq<(Seq<char>, Seq<char>)>, key: Seq<char>) -> Option<Seq<char>>
    decreases tokens.len(),
{
    if tokens.len() == 0 {
        None
    } else if tokens[0].0 == key {
        Some(tokens[0].1)
    } else {
        lookup(tokens.drop_first(), key)
    }
}

/// What a placeholder `${key}` becomes: its value, or nothing when the key
/// is not registered.
pub open spec fn token_text(tokens: Seq<(Seq<char>, Seq<char>)>, key: Seq<char>) -> Seq<char> {
    match lookup(tokens, key) {
        Some(v) => v,
        None => Seq::empty(),
    }
}

/// Placeholder expansion, left to right: each `${key}` closed by a `}` is
/// replaced by its value (nothing when the key is unknown, so that no stray
/// placeholder reaches the game); a `${` that is never closed stays as it is.
pub open spec fn expand_spec(t: Seq<char>, tokens: Seq<(Seq<char>, Seq<char>)>) -> Seq<char>
    decreases t.len(),
{
    match find(t, "${"@) {
        None => t,
        Some(s) => {
            proof {
                lemma_find_from_bounds(t, "${"@, 0, false);
                reveal_strlit("${");
            }
            let after = t.skip(s + 2);
            match find(after, "}"@) {
                Some(e) => {
                    proof {
                        lemma_find_from_bounds(after, "}"@, 0, false);
                        reveal_strlit("}");
                    }
                    t.take(s) + token_text(tokens, after.take(e)) + expand_spec(
                        after.skip(e + 1),
                        tokens,
                    )
                },
                None => t.take(s) + "${"@ + expand_spec(after, tokens),
            }
        },
    }
}

fn lookup_token<'a>(tokens: &'a [(String, String)], key: &str) -> (r: Option<&'a String>)
    ensures
        match r {
            Some(v) => lookup(pairs_view(tokens@), key@) == Some(v@),
            None => lookup(pairs_view(tokens@), key@) is None,
        },
{
    let ghost pv = pairs_view(tokens@);
    let mut i: usize = 0;
    assert(pv.skip(0) =~= pv);
    while i < tokens.len()
        invariant
            i <= tokens@.len(),
            pv == pairs_view(tokens@),
            lookup(pv, key@) == lookup(pv.skip(i as int), key@),
        decreases tokens@.len() - i,
    {
        assert(pv.skip(i as int).drop_first() =~= pv.skip(i + 1));
        assert(pv.skip(i as int)[0] == (tokens@[i as int].0@, tokens@[i as int].1@));
        if crate::text::str_eq(tokens[i].0.as_str(), key) {
            return Some(&tokens[i].1);
        }
        i += 1;
    }
    None
}

/// Replaces the `${key}` placeholders of `template` by their values.
#[verifier::rlimit(40)]
pub fn expand(template: &str, tokens: &[(String, String)]) -> (r: String)
    ensures
        r@ == expand_spec(template@, pairs_view(tokens@)),
{
    proof {
        reveal_strlit("${");
        reveal_strlit("}");
    }
    let h = chars_of(template);
    let n = h.len();
    let open = ['$', '{'];
    assert(open@ =~= "${"@);
    let close = ['}'];
    assert(close@ =~= "}"@);
    let mut out: Vec<char> = Vec::new();
    let mut pos: usize = 0;
    assert(h@.skip(0) =~= h@);
    loop
        invariant
            h@ == template@,
            n == h@.len(),
            pos <= n,
            open@ == "${"@,
            close@ == "}"@,
            expand_spec(template@, pairs_view(tokens@)) == out@ + expand_spec(
                h@.skip(pos as int),
                pairs_view(tokens@),
            ),
        decreases n - pos,
    {
        let ghost rest = h@.skip(pos as int);
        let ghost before = out@;
        proof {
            lemma_find_shift(h@, "${"@, pos as int, 0, false);
            lemma_find_from_bounds(h@, "${"@, pos as int, false);
        }
        match find_chars(h.as_slice(), open.as_slice(), pos, false) {
            None => {
                extend_chars(&mut out, &h.as_slice()[pos..n]);
                assert(h@.subrange(pos as int, n as int) =~= rest);
                return string_of(out.as_slice());
            },
            Some(s) => {
                extend_chars(&mut out, &h.as_slice()[pos..s]);
                assert(h@.subrange(pos as int, s as int) =~= rest.take(s - pos));
                let after = s + 2;
                let ghost aft = rest.skip(s - pos + 2);
                assert(aft =~= h@.skip(after as int));
                proof {
                    lemma_find_shift(h@, "}"@, after as int, 0, false);
                    lemma_find_from_bounds(h@, "}"@, after as int, false);
                }
                match find_chars(h.as_slice(), close.as_slice(), after, false) {
                    Some(e) => {
                        let key = string_of(&h.as_slice()[after..e]);
                        assert(key@ =~= aft.take(e - after));
                        match lookup_token(tokens, key.as_str()) {
                            Some(v) => {
                                let vc = chars_of(v.as_str());
                                extend_chars(&mut out, vc.as_slice());
                            },
                            None => {},
                        }
                        assert(aft.skip(e - after + 1) =~= h@.skip(e + 1));
                        assert(out@ =~= before + rest.take(s - pos) + token_text(
                            pairs_view(tokens@),
                            aft.take(e - after),
                        ));
                        pos = e + 1;
                    },
                    None => {
                        extend_chars(&mut out, open.as_slice());
                        assert(out@ =~= before + rest.take(s - pos) + "${"@);
                        pos = after;
                    },
                }
            },
        }
    }
}

/// A template without `${` comes out unchanged.
pub proof fn expand_without_placeholders(t: Seq<char>, tokens: Seq<(Seq<char>, Seq<char>)>)
    requires
        find(t, "${"@) is None,
    ensures
        expand_spec(t, tokens) == t,
{
}

} // verus!

verus! {

// ---------------------------------------------------------------------------
// Arguments of the version
// ---------------------------------------------------------------------------

/// One argument word: the expanded text, unless the template is blank.
pub open spec fn word_if(s: Seq<char>, tokens: Seq<(Seq<char>, Seq<char>)>) -> Seq<Seq<char>> {
    if trim(s).len() > 0 {
        seq![expand_spec(s, tokens)]
    } else {
        Seq::empty()
    }
}

pub open spec fn values_words(vals: Seq<String>, tokens: Seq<(Seq<char>, Seq<char>)>) -> Seq<Seq<char>>
    decreases vals.len(),
{
    if vals.len() == 0 {
        Seq::empty()
    } else {
        values_words(vals.drop_last(), tokens) + word_if(vals.last()@, tokens)
    }
}

/// The words one entry of `arguments` gives: a bare string its expansion;
/// a rule-gated entry its value(s), only when its rules allow (arguments
/// are excluded unless a rule admits them).
pub open spec fn unit_words(
    u: StringOrArgument,
    tokens: Seq<(Seq<char>, Seq<char>)>,
    f: FeatureState,
    p: &Platform,
) -> Seq<Seq<char>> {
    match u {
        StringOrArgument::String(s) => word_if(s@, tokens),
        StringOrArgument::Argument(a) => if rules_allow_spec(Some(a.rules@), f, p, false) {
            match a.value {
                ArgumentValue::String(s) => word_if(s@, tokens),
                ArgumentValue::Vec(vs) => values_words(vs@, tokens),
            }
        } else {
            Seq::empty()
        },
    }
}

pub open spec fn units_words(
    us: Seq<StringOrArgument>,
    tokens: Seq<(Seq<char>, Seq<char>)>,
    f: FeatureState,
    p: &Platform,
) -> Seq<Seq<char>>
    decreases us.len(),
{
    if us.len() == 0 {
        Seq::empty()
    } else {
        units_words(us.drop_last(), tokens, f, p) + unit_words(us.last(), tokens, f, p)
    }
}

fn push_word(out: &mut Vec<String>, s: &str, tokens: &[(String, String)])
    ensures
        strings_view(final(out)@) == strings_view(old(out)@) + word_if(s@, pairs_view(tokens@)),
{
    let ghost before = strings_view(out@);
    if !is_blank(s) {
        out.push(expand(s, tokens));
        assert(strings_view(out@) =~= before + word_if(s@, pairs_view(tokens@)));
    } else {
        assert(strings_view(out@) =~= before + word_if(s@, pairs_view(tokens@)));
    }
}

fn push_values(out: &mut Vec<String>, vals: &Vec<String>, tokens: &[(String, String)])
    ensures
        strings_view(final(out)@) == strings_view(old(out)@) + values_words(vals@, pairs_view(tokens@)),
{
    let ghost start = strings_view(out@);
    let mut i: usize = 0;
    while i < vals.len()
        invariant
            i <= vals@.len(),
            strings_view(out@) == start + values_words(vals@.take(i as int), pairs_view(tokens@)),
        decreases vals@.len() - i,
    {
        assert(vals@.take(i + 1).drop_last() =~= vals@.take(i as int));
        push_word(out, vals[i].as_str(), tokens);
        i += 1;
    }
    assert(vals@.take(vals@.len() as int) =~= vals@);
}

/// Expands the entries of `arguments.jvm` or `arguments.game` in order:
/// bare strings always, rule-gated entries only when their rules allow on
/// this platform with these features; blank templates give no word.
pub fn expand_arguments(
    units: &[StringOrArgument],
    tokens: &[(String, String)],
    features: &FeatureState,
    platform: &Platform,
) -> (r: Vec<String>)
    ensures
        strings_view(r@) == units_words(units@, pairs_view(tokens@), *features, platform),
{
    let mut out: Vec<String> = Vec::new();
    let mut i: usize = 0;
    while i < units.len()
        invariant
            i <= units@.len(),
            strings_view(out@) == units_words(units@.take(i as int), pairs_view(tokens@), *features, platform),
        decreases units@.len() - i,
    {
        assert(units@.take(i + 1).drop_last() =~= units@.take(i as int));
        let ghost before = strings_view(out@);
        match &units[i] {
            StringOrArgument::String(s) => {
                push_word(&mut out, s.as_str(), tokens);
            },
            StringOrArgument::Argument(arg) => {
                if rules_allow(Some(arg.rules.as_slice()), features, false, platform) {
                    match &arg.value {
                        ArgumentValue::String(s) => {
                            push_word(&mut out, s.as_str(), tokens);
                        },
                        ArgumentValue::Vec(vals) => {
                            push_values(&mut out, vals, tokens);
                        },
                    }
                } else {
                    assert(strings_view(out@) =~= before + Seq::<Seq<char>>::empty());
                }
            },
        }
        i += 1;
    }
    assert(units@.take(units@.len() as int) =~= units@);
    out
}

// ---------------------------------------------------------------------------
// Showing a command
// ---------------------------------------------------------------------------

/// `char::is_alphanumeric` (Unicode `Alphabetic` or `Numeric`).
pub uninterp spec fn alphanumeric(c: char) -> bool;

pub open spec fn ascii_alnum(c: char) -> bool {
    ('a' <= c && c <= 'z') || ('A' <= c && c <= 'Z') || ('0' <= c && c <= '9')
}

/// `char::is_alphanumeric`; on ASCII it holds of letters and digits only.
#[verifier::external_body]
fn is_alphanumeric(c: char) -> (b: bool)
    ensures
        b == alphanumeric(c),
        (c as u32) < 128 ==> (b == ascii_alnum(c)),
{
    c.is_alphanumeric()
}

/// Whether `c` is alphanumeric: an ASCII letter or digit for ASCII
/// characters, else by the Unicode classes.
pub open spec fn alnum_char(c: char) -> bool {
    if (c as u32) < 128 {
        ascii_alnum(c)
    } else {
        alphanumeric(c)
    }
}

/// Characters a POSIX shell takes literally: letters, digits and a few
/// signs.
pub open spec fn posix_plain(c: char) -> bool {
    alnum_char(c) || c == '-' || c == '_' || c == '.' || c == '/' || c == ':' || c == '='
        || c == '+' || c == '@' || c == '%' || c == '^' || c == ',' || c == '~'
}

/// A word quoted for a POSIX shell: `''` when empty; as it is when every
/// character is plain; else inside single quotes, each `'` written `'\''`.
pub open spec fn quote_posix(a: Seq<char>) -> Seq<char> {
    if a.len() == 0 {
        "''"@
    } else if forall|i: int| 0 <= i < a.len() ==> posix_plain(#[trigger] a[i]) {
        a
    } else {
        "'"@ + replace(a, "'"@, "'\\''"@) + "'"@
    }
}

/// A word quoted for the Windows command line: `''` when empty; inside
/// double quotes, each `"` written `\"`, when it holds white space or `"`;
/// else as it is.
pub open spec fn quote_windows(a: Seq<char>) -> Seq<char> {
    if a.len() == 0 {
        "''"@
    } else if exists|i: int| 0 <= i < a.len() && (crate::text::is_ws(#[trigger] a[i]) || a[i] == '"') {
        "\""@ + replace(a, "\""@, "\\\""@) + "\""@
    } else {
        a
    }
}

pub open spec fn quote_for(a: Seq<char>, windows: bool) -> Seq<char> {
    if windows {
        quote_windows(a)
    } else {
        quote_posix(a)
    }
}

/// A command as one line: each word quoted, joined by single spaces.
pub open spec fn shell_line(argv: Seq<Seq<char>>, windows: bool) -> Seq<char> {
    join(Seq::new(argv.len(), |i: int| quote_for(argv[i], windows)), " "@)
}

fn all_posix_plain(v: &[char]) -> (b: bool)
    ensures
        b == (forall|i: int| 0 <= i < v@.len() ==> posix_plain(#[trigger] v@[i])),
{
    let mut i: usize = 0;
    while i < v.len()
        invariant
            i <= v@.len(),
            forall|k: int| 0 <= k < i ==> posix_plain(#[trigger] v@[k]),
        decreases v@.len() - i,
    {
        let c = v[i];
        let ok = is_alphanumeric(c) || c == '-' || c == '_' || c == '.' || c == '/' || c == ':'
            || c == '=' || c == '+' || c == '@' || c == '%' || c == '^' || c == ',' || c == '~';
        if !ok {
            assert(!posix_plain(v@[i as int]));
            return false;
        }
        i += 1;
    }
    true
}

fn any_ws_or_quote(v: &[char]) -> (b: bool)
    ensures
        b == (exists|i: int| 0 <= i < v@.len() && (crate::text::is_ws(#[trigger] v@[i]) || v@[i] == '"')),
{
    let mut i: usize = 0;
    while i < v.len()
        invariant
            i <= v@.len(),
            forall|k: int| 0 <= k < i ==> !(crate::text::is_ws(#[trigger] v@[k]) || v@[k] == '"'),
        decreases v@.len() - i,
    {
        if crate::text::is_whitespace(v[i]) || v[i] == '"' {
            return true;
        }
        i += 1;
    }
    false
}

/// Quotes one word for the host's shell.
pub fn quote(arg: &str, windows: bool) -> (r: String)
    ensures
        r@ == quote_for(arg@, windows),
{
    let v = chars_of(arg);
    if v.len() == 0 {
        return "''".to_owned();
    }
    if windows {
        if any_ws_or_quote(v.as_slice()) {
            proof {
                reveal_strlit("\"");
            }
            crate::text::concat3("\"", replace_str(arg, "\"", "\\\"").as_str(), "\"")
        } else {
            arg.to_owned()
        }
    } else {
        if all_posix_plain(v.as_slice()) {
            arg.to_owned()
        } else {
            proof {
                reveal_strlit("'");
            }
            crate::text::concat3("'", replace_str(arg, "'", "'\\''").as_str(), "'")
        }
    }
}

/// A command as one line for a shell of the given kind.
pub fn shell_join_for(argv: &[String], windows: bool) -> (r: String)
    ensures
        r@ == shell_line(strings_view(argv@), windows),
{
    let mut quoted: Vec<String> = Vec::new();
    let mut i: usize = 0;
    while i < argv.len()
        invariant
            i <= argv@.len(),
            strings_view(quoted@) == Seq::new(i as nat, |k: int| quote_for(argv@[k]@, windows)),
        decreases argv@.len() - i,
    {
        let ghost before = strings_view(quoted@);
        let q = quote(argv[i].as_str(), windows);
        assert(q@ == quote_for(argv@[i as int]@, windows));
        quoted.push(q);
        assert(strings_view(quoted@) =~= before.push(q@));
        assert(strings_view(quoted@) =~= Seq::new((i + 1) as nat, |k: int| quote_for(argv@[k]@, windows)));
        i += 1;
    }
    assert(Seq::new(argv@.len(), |k: int| quote_for(argv@[k]@, windows)) =~= Seq::new(
        strings_view(argv@).len(),
        |k: int| quote_for(strings_view(argv@)[k], windows),
    ));
    join_strings(quoted.as_slice(), " ")
}

/// A command as one line for the host's shell (Windows quoting on Windows,
/// POSIX quoting elsewhere), for showing and copying.
pub fn shell_join(argv: &[String]) -> (r: String)
    ensures
        r@ == shell_line(strings_view(argv@), false) || r@ == shell_line(strings_view(argv@), true),
{
    shell_join_for(argv, crate::platform::is_windows_host())
}

} // verus!

verus! {

// ---------------------------------------------------------------------------
// The final command
// ---------------------------------------------------------------------------

/// The paths of one launch, as shown on the host (absolute).
pub struct LaunchPaths {
    /// The instance directory (the game directory), `versions/<dir>`.
    pub game_dir: String,
    /// `versions/<dir>/natives`.
    pub natives_dir: String,
    /// `.minecraft/libraries`.
    pub libraries_root: String,
    /// `.minecraft/assets`.
    pub assets_root: String,
    /// The log4j configuration, `assets/log_configs/<id>`.
    pub log_config_path: String,
    /// `versions/<dir>/<version>.jar`.
    pub client_jar: String,
}

/// Everything a launch command is made from. The class path entries and
/// which files exist are looked up on disk by the caller.
pub struct LaunchContext<'a> {
    pub content: &'a VersionContent,
    pub paths: &'a LaunchPaths,
    pub config: &'a InstanceConfig,
    pub profile: &'a GameProfile,
    /// The Java executable (a path, or just `java`).
    pub java_bin: &'a str,
    pub launcher_name: &'a str,
    pub launcher_version: &'a str,
    pub platform: &'a Platform,
    /// The class path: the allowed libraries below the libraries root, then
    /// the client jar.
    pub classpath: &'a [String],
    /// The class path entries that are not on disk.
    pub missing: &'a [String],
    /// Whether the log4j configuration file is on disk.
    pub log_config_exists: bool,
}

/// A launch command: the words to spawn, the same as one line to show or
/// copy, and notes on what was left out.
pub struct LaunchCommand {
    pub argv: Vec<String>,
    pub display: String,
    pub warnings: Vec<String>,
}

/// Why no launch command can be made.
#[derive(Debug)]
pub enum CommandError {
    /// Files of the class path are missing (the version is not fully
    /// downloaded); they are listed.
    MissingFiles(Vec<String>),
}

/// The artifact paths (below the libraries root) of the libraries whose
/// rules allow them on the platform.
pub open spec fn allowed_library_paths(
    libs: Seq<crate::downloader::deserializer::OnceLibraries>,
    p: &Platform,
) -> Seq<Seq<char>>
    decreases libs.len(),
{
    if libs.len() == 0 {
        Seq::empty()
    } else {
        let rest = allowed_library_paths(libs.drop_last(), p);
        let lib = libs.last();
        if rules_allow_spec(
            match lib.rules {
                Some(r) => Some(r@),
                None => None,
            },
            crate::platform::no_features(),
            p,
            true,
        ) {
            rest.push(lib.downloads.artifact.path@)
        } else {
            rest
        }
    }
}

/// The libraries of the class path, as artifact paths below the libraries
/// root: those whose rules allow them on this platform, in order.
pub fn classpath_libraries(content: &VersionContent, platform: &Platform) -> (r: Vec<String>)
    ensures
        strings_view(r@) == allowed_library_paths(content.libraries@, platform),
{
    let libs = &content.libraries;
    let mut out: Vec<String> = Vec::new();
    let mut i: usize = 0;
    let none = features_default();
    while i < libs.len()
        invariant
            i <= libs@.len(),
            none == crate::platform::no_features(),
            strings_view(out@) == allowed_library_paths(libs@.take(i as int), platform),
        decreases libs@.len() - i,
    {
        assert(libs@.take(i + 1).drop_last() =~= libs@.take(i as int));
        let lib = &libs[i];
        let rules = match &lib.rules {
            Some(r) => Some(r.as_slice()),
            None => None,
        };
        let ghost before = strings_view(out@);
        if rules_allow(rules, &none, true, platform) {
            out.push(lib.downloads.artifact.path.clone());
            assert(strings_view(out@) =~= before.push(lib.downloads.artifact.path@));
        }
        i += 1;
    }
    assert(libs@.take(libs@.len() as int) =~= libs@);
    out
}

/// The player name passed to the game: the profile's user name unless it is
/// blank, else its display name.
pub open spec fn player_name_of(p: GameProfile) -> Seq<char> {
    match p.username {
        Some(u) => if trim(u@).len() > 0 {
            u@
        } else {
            p.name@
        },
        None => p.name@,
    }
}

fn player_name(profile: &GameProfile) -> (r: String)
    ensures
        r@ == player_name_of(*profile),
{
    match &profile.username {
        Some(u) => {
            if !is_blank(u.as_str()) {
                u.clone()
            } else {
                profile.name.clone()
            }
        },
        None => profile.name.clone(),
    }
}

/// The placeholder values of a launch: `cp` the joined class path, `sep`
/// the class path separator, `client_id` the client id of this launch;
/// the window size only when both sides are set.
pub open spec fn launch_tokens(
    ctx: LaunchContext,
    cp: Seq<char>,
    sep: Seq<char>,
    client_id: Seq<char>,
) -> Seq<(Seq<char>, Seq<char>)> {
    let base = seq![
        ("classpath"@, cp),
        ("classpath_separator"@, sep),
        ("natives_directory"@, ctx.paths.natives_dir@),
        ("launcher_name"@, ctx.launcher_name@),
        ("launcher_version"@, ctx.launcher_version@),
        ("game_directory"@, ctx.paths.game_dir@),
        ("assets_root"@, ctx.paths.assets_root@),
        ("assets_index_name"@, ctx.content.assets_index.id@),
        ("library_directory"@, ctx.paths.libraries_root@),
        ("client_jar"@, ctx.paths.client_jar@),
        ("version_name"@, ctx.content.id@),
        ("version_type"@, ctx.content.version_type@),
        ("auth_player_name"@, player_name_of(*ctx.profile)),
        ("auth_uuid"@, ctx.profile.id@),
        ("auth_access_token"@, "0"@),
        ("clientid"@, client_id),
        ("auth_xuid"@, "0"@),
        ("user_type"@, "legacy"@),
    ];
    match (ctx.config.width, ctx.config.height) {
        (Some(w), Some(h)) => base + seq![
            ("resolution_width"@, crate::text::decimal(w as nat)),
            ("resolution_height"@, crate::text::decimal(h as nat)),
        ],
        _ => base,
    }
}

/// Finds `key` at position `k` when no earlier entry has that key.
pub proof fn lemma_lookup_at(tokens: Seq<(Seq<char>, Seq<char>)>, key: Seq<char>, k: int)
    requires
        0 <= k < tokens.len(),
        tokens[k].0 == key,
        forall|j: int| 0 <= j < k ==> (#[trigger] tokens[j]).0 != key,
    ensures
        lookup(tokens, key) == Some(tokens[k].1),
    decreases k,
{
    if k > 0 {
        assert forall|j: int| 0 <= j < k - 1 implies (#[trigger] tokens.drop_first()[j]).0 != key by {
            assert(tokens.drop_first()[j] == tokens[j + 1]);
        }
        lemma_lookup_at(tokens.drop_first(), key, k - 1);
    }
}

/// Finds nothing when no entry has `key`.
pub proof fn lemma_lookup_absent(tokens: Seq<(Seq<char>, Seq<char>)>, key: Seq<char>)
    requires
        forall|j: int| 0 <= j < tokens.len() ==> (#[trigger] tokens[j]).0 != key,
    ensures
        lookup(tokens, key) is None,
    decreases tokens.len(),
{
    if tokens.len() > 0 {
        assert forall|j: int| 0 <= j < tokens.len() - 1 implies (#[trigger] tokens.drop_first()[j]).0 != key by {
            assert(tokens.drop_first()[j] == tokens[j + 1]);
        }
        lemma_lookup_absent(tokens.drop_first(), key);
    }
}

/// Each `${...}` placeholder of a launch names its own value: the class
/// path and its separator, the natives, game, assets and libraries
/// directories, the assets index id (not the version id), the client jar,
/// the version's id and type, the player's name and UUID, the client id,
/// and the window size exactly when the instance sets both width and
/// height.
pub proof fn launch_token_values(
    ctx: LaunchContext,
    cp: Seq<char>,
    sep: Seq<char>,
    client_id: Seq<char>,
)
    ensures
        ({
            let t = launch_tokens(ctx, cp, sep, client_id);
            &&& lookup(t, "classpath"@) == Some(cp)
            &&& lookup(t, "classpath_separator"@) == Some(sep)
            &&& lookup(t, "natives_directory"@) == Some(ctx.paths.natives_dir@)
            &&& lookup(t, "launcher_name"@) == Some(ctx.launcher_name@)
            &&& lookup(t, "launcher_version"@) == Some(ctx.launcher_version@)
            &&& lookup(t, "game_directory"@) == Some(ctx.paths.game_dir@)
            &&& lookup(t, "assets_root"@) == Some(ctx.paths.assets_root@)
            &&& lookup(t, "assets_index_name"@) == Some(ctx.content.assets_index.id@)
            &&& lookup(t, "library_directory"@) == Some(ctx.paths.libraries_root@)
            &&& lookup(t, "client_jar"@) == Some(ctx.paths.client_jar@)
            &&& lookup(t, "version_name"@) == Some(ctx.content.id@)
            &&& lookup(t, "version_type"@) == Some(ctx.content.version_type@)
            &&& lookup(t, "auth_player_name"@) == Some(player_name_of(*ctx.profile))
            &&& lookup(t, "auth_uuid"@) == Some(ctx.profile.id@)
            &&& lookup(t, "auth_access_token"@) == Some("0"@)
            &&& lookup(t, "clientid"@) == Some(client_id)
            &&& lookup(t, "auth_xuid"@) == Some("0"@)
            &&& lookup(t, "user_type"@) == Some("legacy"@)
            &&& match (ctx.config.width, ctx.config.height) {
                (Some(w), Some(h)) => lookup(t, "resolution_width"@) == Some(crate::text::decimal(w as nat))
                    && lookup(t, "resolution_height"@) == Some(crate::text::decimal(h as nat)),
                _ => lookup(t, "resolution_width"@) is None && lookup(t, "resolution_height"@) is None,
            }
        }),
{
    reveal_strlit("classpath");
    reveal_strlit("classpath_separator");
    reveal_strlit("natives_directory");
    reveal_strlit("launcher_name");
    reveal_strlit("launcher_version");
    reveal_strlit("game_directory");
    reveal_strlit("assets_root");
    reveal_strlit("assets_index_name");
    reveal_strlit("library_directory");
    reveal_strlit("client_jar");
    reveal_strlit("version_name");
    reveal_strlit("version_type");
    reveal_strlit("auth_player_name");
    reveal_strlit("auth_uuid");
    reveal_strlit("auth_access_token");
    reveal_strlit("clientid");
    reveal_strlit("auth_xuid");
    reveal_strlit("user_type");
    reveal_strlit("resolution_width");
    reveal_strlit("resolution_height");
    reveal_strlit("0");
    reveal_strlit("legacy");
    assert("classpath"@.len() == 9);
    assert("classpath_separator"@.len() == 19);
    assert("natives_directory"@.len() == 17);
    assert("launcher_name"@.len() == 13);
    assert("launcher_version"@.len() == 16);
    assert("game_directory"@.len() == 14);
    assert("assets_root"@.len() == 11);
    assert("assets_index_name"@.len() == 17);
    assert("library_directory"@.len() == 17);
    assert("client_jar"@.len() == 10);
    assert("version_name"@.len() == 12);
    assert("version_type"@.len() == 12);
    assert("auth_player_name"@.len() == 16);
    assert("auth_uuid"@.len() == 9);
    assert("auth_access_token"@.len() == 17);
    assert("clientid"@.len() == 8);
    assert("auth_xuid"@.len() == 9);
    assert("user_type"@.len() == 9);
    assert("resolution_width"@.len() == 16);
    assert("resolution_height"@.len() == 17);
    assert("classpath"@[0] != "auth_uuid"@[0]);
    assert("classpath"@[0] != "auth_xuid"@[0]);
    assert("classpath"@[0] != "user_type"@[0]);
    assert("natives_directory"@[0] != "assets_index_name"@[0]);
    assert("natives_directory"@[0] != "library_directory"@[0]);
    assert("natives_directory"@[0] != "auth_access_token"@[0]);
    assert("natives_directory"@[0] != "resolution_height"@[0]);
    assert("launcher_version"@[0] != "auth_player_name"@[0]);
    assert("launcher_version"@[0] != "resolution_width"@[0]);
    assert("assets_index_name"@[0] != "library_directory"@[0]);
    assert("assets_index_name"@[1] != "auth_access_token"@[1]);
    assert("assets_index_name"@[0] != "resolution_height"@[0]);
    assert("library_directory"@[0] != "auth_access_token"@[0]);
    assert("library_directory"@[0] != "resolution_height"@[0]);
    assert("version_name"@[8] != "version_type"@[8]);
    assert("auth_player_name"@[0] != "resolution_width"@[0]);
    assert("auth_uuid"@[5] != "auth_xuid"@[5]);
    assert("auth_uuid"@[0] != "user_type"@[0]);
    assert("auth_access_token"@[0] != "resolution_height"@[0]);
    assert("auth_xuid"@[0] != "user_type"@[0]);
    let t = launch_tokens(ctx, cp, sep, client_id);
    lemma_lookup_at(t, "classpath"@, 0);
    lemma_lookup_at(t, "classpath_separator"@, 1);
    lemma_lookup_at(t, "natives_directory"@, 2);
    lemma_lookup_at(t, "launcher_name"@, 3);
    lemma_lookup_at(t, "launcher_version"@, 4);
    lemma_lookup_at(t, "game_directory"@, 5);
    lemma_lookup_at(t, "assets_root"@, 6);
    lemma_lookup_at(t, "assets_index_name"@, 7);
    lemma_lookup_at(t, "library_directory"@, 8);
    lemma_lookup_at(t, "client_jar"@, 9);
    lemma_lookup_at(t, "version_name"@, 10);
    lemma_lookup_at(t, "version_type"@, 11);
    lemma_lookup_at(t, "auth_player_name"@, 12);
    lemma_lookup_at(t, "auth_uuid"@, 13);
    lemma_lookup_at(t, "auth_access_token"@, 14);
    lemma_lookup_at(t, "clientid"@, 15);
    lemma_lookup_at(t, "auth_xuid"@, 16);
    lemma_lookup_at(t, "user_type"@, 17);
    if ctx.config.width is Some && ctx.config.height is Some {
        lemma_lookup_at(t, "resolution_width"@, 18);
        lemma_lookup_at(t, "resolution_height"@, 19);
    } else {
        lemma_lookup_absent(t, "resolution_width"@);
        lemma_lookup_absent(t, "resolution_height"@);
    }
}

fn pair(k: &str, v: String) -> (r: (String, String))
    ensures
        r.0@ == k@,
        r.1 == v,
{
    (k.to_owned(), v)
}

fn make_tokens(ctx: &LaunchContext, cp: String, sep: &str, client_id: String) -> (r: Vec<
    (String, String),
>)
    ensures
        pairs_view(r@) == launch_tokens(*ctx, cp@, sep@, client_id@),
{
    let mut t: Vec<(String, String)> = Vec::new();
    t.push(pair("classpath", cp));
    t.push(pair("classpath_separator", sep.to_owned()));
    t.push(pair("natives_directory", ctx.paths.natives_dir.clone()));
    t.push(pair("launcher_name", ctx.launcher_name.to_owned()));
    t.push(pair("launcher_version", ctx.launcher_version.to_owned()));
    t.push(pair("game_directory", ctx.paths.game_dir.clone()));
    t.push(pair("assets_root", ctx.paths.assets_root.clone()));
    t.push(pair("assets_index_name", ctx.content.assets_index.id.clone()));
    t.push(pair("library_directory", ctx.paths.libraries_root.clone()));
    t.push(pair("client_jar", ctx.paths.client_jar.clone()));
    t.push(pair("version_name", ctx.content.id.clone()));
    t.push(pair("version_type", ctx.content.version_type.clone()));
    t.push(pair("auth_player_name", player_name(ctx.profile)));
    t.push(pair("auth_uuid", ctx.profile.id.clone()));
    t.push(pair("auth_access_token", "0".to_owned()));
    t.push(pair("clientid", client_id));
    t.push(pair("auth_xuid", "0".to_owned()));
    t.push(pair("user_type", "legacy".to_owned()));
    match (ctx.config.width, ctx.config.height) {
        (Some(w), Some(h)) => {
            t.push(pair("resolution_width", crate::text::decimal_string(w as u64)));
            t.push(pair("resolution_height", crate::text::decimal_string(h as u64)));
        },
        _ => {},
    }
    assert(pairs_view(t@) =~= launch_tokens(*ctx, cp@, sep@, client_id@));
    t
}

/// The log4j argument of the version with its `${path}` filled in.
pub open spec fn log_argument(ctx: LaunchContext) -> Seq<char> {
    replace(ctx.content.logging.client.argument@, "${path}"@, ctx.paths.log_config_path@)
}

/// Whether the log4j argument is passed: it is not blank and its file exists.
pub open spec fn passes_log_argument(ctx: LaunchContext) -> bool {
    trim(log_argument(ctx)).len() > 0 && ctx.log_config_exists
}

/// The JVM words: the version's, then the instance's own, then the log4j
/// argument when it is passed.
pub open spec fn jvm_words(ctx: LaunchContext, toks: Seq<(Seq<char>, Seq<char>)>) -> Seq<Seq<char>> {
    let f = crate::platform::FeatureState {
        has_custom_resolution: ctx.config.width is Some && ctx.config.height is Some,
        ..crate::platform::no_features()
    };
    units_words(ctx.content.arguments.jvm@, toks, f, ctx.platform) + strings_view(
        ctx.config.jvm_args@,
    ) + if passes_log_argument(ctx) {
        seq![log_argument(ctx)]
    } else {
        Seq::empty()
    }
}

pub open spec fn game_words(ctx: LaunchContext, toks: Seq<(Seq<char>, Seq<char>)>) -> Seq<Seq<char>> {
    let f = crate::platform::FeatureState {
        has_custom_resolution: ctx.config.width is Some && ctx.config.height is Some,
        ..crate::platform::no_features()
    };
    units_words(ctx.content.arguments.game@, toks, f, ctx.platform)
}

/// The words of the launch command: the instance's prefix, the Java
/// executable, the JVM words, the main class, the game words, the
/// instance's own game arguments, and the instance's suffix.
pub open spec fn command_words(ctx: LaunchContext, toks: Seq<(Seq<char>, Seq<char>)>) -> Seq<
    Seq<char>,
> {
    strings_view(ctx.config.launch_command_prefix@) + seq![ctx.java_bin@] + jvm_words(ctx, toks)
        + seq![ctx.content.main_class@] + game_words(ctx, toks) + strings_view(
        ctx.config.game_args@,
    ) + strings_view(ctx.config.launch_command_suffix@)
}

/// The note given when the log4j argument is dropped for want of its file.
pub open spec fn log_config_warning(path: Seq<char>) -> Seq<char> {
    "日志配置文件不存在（"@ + path + "），将跳过 -Dlog4j.configurationFile"@
}

pub open spec fn command_warnings(ctx: LaunchContext) -> Seq<Seq<char>> {
    if trim(log_argument(ctx)).len() > 0 && !ctx.log_config_exists {
        seq![log_config_warning(ctx.paths.log_config_path@)]
    } else {
        Seq::empty()
    }
}

fn append_strings(dst: &mut Vec<String>, src: &Vec<String>)
    ensures
        final(dst)@ == old(dst)@ + src@,
{
    let mut i: usize = 0;
    let ghost start = dst@;
    while i < src.len()
        invariant
            i <= src@.len(),
            dst@ == start + src@.take(i as int),
        decreases src@.len() - i,
    {
        dst.push(src[i].clone());
        assert(dst@ =~= start + src@.take(i + 1));
        i += 1;
    }
    assert(src@.take(src@.len() as int) =~= src@);
}

/// The launch command for a given client id and shell kind; fails, listing
/// them, when files of the class path are missing.
pub fn assemble_command(ctx: &LaunchContext, client_id: String, windows: bool) -> (r: Result<
    LaunchCommand,
    CommandError,
>)
    ensures
        match r {
            Err(CommandError::MissingFiles(m)) => ctx.missing@.len() > 0 && m@ == ctx.missing@,
            Ok(cmd) => {
                let toks = launch_tokens(
                    *ctx,
                    join(strings_view(ctx.classpath@), crate::platform::path_separator_for(windows)),
                    crate::platform::path_separator_for(windows),
                    client_id@,
                );
                &&& ctx.missing@.len() == 0
                &&& strings_view(cmd.argv@) == command_words(*ctx, toks)
                &&& cmd.display@ == shell_line(command_words(*ctx, toks), windows)
                &&& strings_view(cmd.warnings@) == command_warnings(*ctx)
            },
        },
{
    if ctx.missing.len() > 0 {
        let mut m: Vec<String> = Vec::new();
        let mut i: usize = 0;
        while i < ctx.missing.len()
            invariant
                i <= ctx.missing@.len(),
                m@ == ctx.missing@.take(i as int),
            decreases ctx.missing@.len() - i,
        {
            m.push(ctx.missing[i].clone());
            assert(m@ =~= ctx.missing@.take(i + 1));
            i += 1;
        }
        assert(ctx.missing@.take(ctx.missing@.len() as int) =~= ctx.missing@);
        return Err(CommandError::MissingFiles(m));
    }
    let sep: &str = if windows {
        ";"
    } else {
        ":"
    };
    let cp = join_strings(ctx.classpath, sep);
    let ghost toks = launch_tokens(*ctx, cp@, sep@, client_id@);
    let tokens = make_tokens(ctx, cp, sep, client_id);
    let custom = ctx.config.width.is_some() && ctx.config.height.is_some();
    let features = FeatureState::with_custom_resolution(custom);
    let mut jvm = expand_arguments(ctx.content.arguments.jvm.as_slice(), tokens.as_slice(), &features, ctx.platform);
    let game = expand_arguments(ctx.content.arguments.game.as_slice(), tokens.as_slice(), &features, ctx.platform);
    append_strings(&mut jvm, &ctx.config.jvm_args);
    proof {
        reveal_strlit("${path}");
    }
    let log_arg = replace_str(
        ctx.content.logging.client.argument.as_str(),
        "${path}",
        ctx.paths.log_config_path.as_str(),
    );
    let mut warnings: Vec<String> = Vec::new();
    let ghost jvm_before = strings_view(jvm@);
    if !is_blank(log_arg.as_str()) {
        if !ctx.log_config_exists {
            warnings.push(crate::text::concat3(
                "日志配置文件不存在（",
                ctx.paths.log_config_path.as_str(),
                "），将跳过 -Dlog4j.configurationFile",
            ));
            assert(strings_view(jvm@) =~= jvm_before + Seq::<Seq<char>>::empty());
        } else {
            jvm.push(log_arg);
        }
    } else {
        assert(strings_view(jvm@) =~= jvm_before + Seq::<Seq<char>>::empty());
    }
    assert(strings_view(jvm@) =~= jvm_words(*ctx, toks));
    assert(strings_view(warnings@) =~= command_warnings(*ctx));
    let mut argv: Vec<String> = crate::text::clone_strings(&ctx.config.launch_command_prefix);
    argv.push(ctx.java_bin.to_owned());
    append_strings(&mut argv, &jvm);
    argv.push(ctx.content.main_class.clone());
    append_strings(&mut argv, &game);
    append_strings(&mut argv, &ctx.config.game_args);
    append_strings(&mut argv, &ctx.config.launch_command_suffix);
    assert(strings_view(argv@) =~= command_words(*ctx, toks));
    let display = shell_join_for(argv.as_slice(), windows);
    Ok(LaunchCommand { argv, display, warnings })
}

/// The words of the launch command for a given client id and shell kind.
pub open spec fn launch_words(ctx: LaunchContext, client_id: Seq<char>, windows: bool) -> Seq<Seq<char>> {
    command_words(
        ctx,
        launch_tokens(
            ctx,
            join(strings_view(ctx.classpath@), crate::platform::path_separator_for(windows)),
            crate::platform::path_separator_for(windows),
            client_id,
        ),
    )
}

/// Builds the launch command with a new random client id (a hyphenated
/// UUID), with the class path separator and quoting of the launch's
/// platform (`;` and Windows quoting on Windows, `:` and POSIX quoting
/// elsewhere); fails, listing them, when files of the class path are
/// missing.
pub fn build_final_command(ctx: &LaunchContext) -> (r: Result<LaunchCommand, CommandError>)
    ensures
        r is Err <==> ctx.missing@.len() > 0,
        r matches Err(CommandError::MissingFiles(m)) ==> m@ == ctx.missing@,
        r matches Ok(cmd) ==> exists|id: Seq<char>|
            #![trigger launch_words(*ctx, id, crate::platform::windows_platform(ctx.platform.os_name@))]
            id.len() == 36 && id[8] == '-' && id[13] == '-' && id[18] == '-' && id[23] == '-'
                && strings_view(cmd.argv@) == launch_words(
                *ctx,
                id,
                crate::platform::windows_platform(ctx.platform.os_name@),
            ) && cmd.display@ == shell_line(
                launch_words(*ctx, id, crate::platform::windows_platform(ctx.platform.os_name@)),
                crate::platform::windows_platform(ctx.platform.os_name@),
            ) && strings_view(cmd.warnings@) == command_warnings(*ctx),
{
    let client_id = crate::support::new_uuid_string();
    let ghost id = client_id@;
    let windows = ctx.platform.is_windows();
    let r = assemble_command(ctx, client_id, windows);
    proof {
        if r is Ok {
            assert(launch_words(*ctx, id, windows) == launch_words(*ctx, id, windows));
        }
    }
    r
}

} // verus!
