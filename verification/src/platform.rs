//! Platform and rule decisions shared by downloading and launching, so that
//! both agree on which libraries, natives and arguments apply.
//!
//! The host's operating system and architecture are handed in as a
//! [`Platform`]; [`os_name_of`], [`os_arch_of`] and [`arch_suffix_of`] turn
//! Rust's names for them into Mojang's.

use vstd::prelude::*;

use crate::downloader::deserializer::{FeaturesFlag, Rule};
use crate::text::{concat3, str_eq};

verus! {

// ---------------------------------------------------------------------------
// The host platform
// ---------------------------------------------------------------------------

/// The host as Mojang's rules name it.
pub struct Platform {
    /// `osx`, `windows` or `linux`.
    pub os_name: String,
    /// `x86`, `arm` or `unknown`.
    pub os_arch: String,
    /// Architecture suffix of native classifier keys, when known.
    pub arch_suffix: Option<String>,
}

pub open spec fn os_name_spec(os: Seq<char>) -> Seq<char> {
    if os == "macos"@ {
        "osx"@
    } else if os == "windows"@ {
        "windows"@
    } else {
        "linux"@
    }
}

pub open spec fn is_x86_64(arch: Seq<char>) -> bool {
    arch == "x86_64"@ || arch == "amd64"@
}

pub open spec fn is_arm64(arch: Seq<char>) -> bool {
    arch == "aarch64"@ || arch == "arm64"@
}

pub open spec fn is_x86_32(arch: Seq<char>) -> bool {
    arch == "x86"@ || arch == "i386"@ || arch == "i686"@
}

pub open spec fn os_arch_spec(arch: Seq<char>) -> Seq<char> {
    if is_x86_64(arch) || is_x86_32(arch) {
        "x86"@
    } else if is_arm64(arch) {
        "arm"@
    } else {
        "unknown"@
    }
}

pub open spec fn arch_suffix_spec(arch: Seq<char>) -> Option<Seq<char>> {
    if is_x86_64(arch) {
        Some("amd64"@)
    } else if is_arm64(arch) {
        Some("arm64"@)
    } else if is_x86_32(arch) {
        Some("x86"@)
    } else {
        None
    }
}

/// Mojang's name for the operating system Rust calls `os`.
pub fn os_name_of(os: &str) -> (r: &'static str)
    ensures
        r@ == os_name_spec(os@),
{
    if str_eq(os, "macos") {
        "osx"
    } else if str_eq(os, "windows") {
        "windows"
    } else {
        "linux"
    }
}

/// Mojang's name (for `rules[].os.arch`) of the architecture Rust calls `arch`.
pub fn os_arch_of(arch: &str) -> (r: &'static str)
    ensures
        r@ == os_arch_spec(arch@),
{
    if str_eq(arch, "x86_64") || str_eq(arch, "amd64") || str_eq(arch, "x86") || str_eq(
        arch,
        "i386",
    ) || str_eq(arch, "i686") {
        "x86"
    } else if str_eq(arch, "aarch64") || str_eq(arch, "arm64") {
        "arm"
    } else {
        "unknown"
    }
}

/// The architecture suffix of native classifier keys (`amd64`, `arm64`,
/// `x86`), or `None` for an unknown architecture.
pub fn arch_suffix_of(arch: &str) -> (r: Option<&'static str>)
    ensures
        match r {
            Some(s) => arch_suffix_spec(arch@) == Some(s@),
            None => arch_suffix_spec(arch@) is None,
        },
{
    if str_eq(arch, "x86_64") || str_eq(arch, "amd64") {
        Some("amd64")
    } else if str_eq(arch, "aarch64") || str_eq(arch, "arm64") {
        Some("arm64")
    } else if str_eq(arch, "x86") || str_eq(arch, "i386") || str_eq(arch, "i686") {
        Some("x86")
    } else {
        None
    }
}

impl Platform {
    /// The platform Rust names by `os` and `arch`
    /// (`std::env::consts::OS` and `ARCH`).
    pub fn from_consts(os: &str, arch: &str) -> (p: Platform)
        ensures
            p.os_name@ == os_name_spec(os@),
            p.os_arch@ == os_arch_spec(arch@),
            match p.arch_suffix {
                Some(s) => arch_suffix_spec(arch@) == Some(s@),
                None => arch_suffix_spec(arch@) is None,
            },
    {
        let suffix = match arch_suffix_of(arch) {
            Some(s) => Some(s.to_owned()),
            None => None,
        };
        Platform {
            os_name: os_name_of(os).to_owned(),
            os_arch: os_arch_of(arch).to_owned(),
            arch_suffix: suffix,
        }
    }
}

// ---------------------------------------------------------------------------
// Native classifier keys
// ---------------------------------------------------------------------------

/// The classifier bases of an operating system, preferred first.
pub open spec fn classifier_bases(os: Seq<char>) -> Seq<Seq<char>> {
    if os == "osx"@ {
        seq!["natives-macos"@, "natives-osx"@]
    } else if os == "windows"@ {
        seq!["natives-windows"@]
    } else {
        seq!["natives-linux"@]
    }
}

/// The keys tried for one base: the architecture-specific key first, then
/// the base itself.
pub open spec fn keys_for_base(base: Seq<char>, arch: Option<Seq<char>>) -> Seq<Seq<char>> {
    match arch {
        Some(a) => seq![base + "-"@ + a, base],
        None => seq![base],
    }
}

pub open spec fn keys_for_bases(bases: Seq<Seq<char>>, arch: Option<Seq<char>>) -> Seq<
    Seq<char>,
>
    decreases bases.len(),
{
    if bases.len() == 0 {
        Seq::empty()
    } else {
        keys_for_base(bases[0], arch) + keys_for_bases(bases.drop_first(), arch)
    }
}

pub open spec fn opt_view(o: Option<&str>) -> Option<Seq<char>> {
    match o {
        Some(s) => Some(s@),
        None => None,
    }
}

pub open spec fn opt_string_view(o: Option<String>) -> Option<Seq<char>> {
    match o {
        Some(s) => Some(s@),
        None => None,
    }
}

/// Native classifier keys in the order they are tried: for each base of the
/// operating system, the key with the architecture suffix before the bare
/// key, so that a machine never picks the native of another architecture
/// while its own exists; macOS also tries the older `natives-osx` naming.
pub open spec fn classifier_candidates(os: Seq<char>, arch: Option<Seq<char>>) -> Seq<Seq<char>> {
    keys_for_bases(classifier_bases(os), arch)
}

fn push_keys(out: &mut Vec<String>, base: &str, arch: Option<&str>)
    ensures
        crate::text::strings_view(final(out)@) == crate::text::strings_view(old(out)@)
            + keys_for_base(base@, opt_view(arch)),
{
    let ghost before = crate::text::strings_view(out@);
    match arch {
        Some(a) => {
            out.push(concat3(base, "-", a));
        },
        None => {},
    }
    out.push(base.to_owned());
    proof {
        match arch {
            Some(a) => {
                assert(crate::text::strings_view(out@) =~= before + keys_for_base(
                    base@,
                    opt_view(arch),
                ));
            },
            None => {
                assert(crate::text::strings_view(out@) =~= before + keys_for_base(
                    base@,
                    opt_view(arch),
                ));
            },
        }
    }
}

/// Classifier keys for the given Mojang OS name and architecture suffix.
pub fn native_classifier_candidates_for(platform_os: &str, arch: Option<&str>) -> (r: Vec<String>)
    ensures
        crate::text::strings_view(r@) == classifier_candidates(platform_os@, opt_view(arch)),
{
    let mut out: Vec<String> = Vec::new();
    let ghost a = opt_view(arch);
    if str_eq(platform_os, "osx") {
        push_keys(&mut out, "natives-macos", arch);
        push_keys(&mut out, "natives-osx", arch);
        proof {
            let b = classifier_bases(platform_os@);
            assert(b.drop_first().drop_first() =~= Seq::<Seq<char>>::empty());
            assert(keys_for_bases(b.drop_first(), a) == keys_for_base(b[1], a) + keys_for_bases(
                b.drop_first().drop_first(),
                a,
            ));
            assert(keys_for_bases(b.drop_first(), a) =~= keys_for_base(b[1], a));
        }
    } else if str_eq(platform_os, "windows") {
        push_keys(&mut out, "natives-windows", arch);
        proof {
            let b = classifier_bases(platform_os@);
            assert(b.drop_first() =~= Seq::<Seq<char>>::empty());
            assert(keys_for_bases(Seq::<Seq<char>>::empty(), a) == Seq::<Seq<char>>::empty());
            assert(keys_for_bases(b, a) =~= keys_for_base(b[0], a));
        }
    } else {
        push_keys(&mut out, "natives-linux", arch);
        proof {
            let b = classifier_bases(platform_os@);
            assert(b.drop_first() =~= Seq::<Seq<char>>::empty());
            assert(keys_for_bases(Seq::<Seq<char>>::empty(), a) == Seq::<Seq<char>>::empty());
            assert(keys_for_bases(b, a) =~= keys_for_base(b[0], a));
        }
    }
    out
}

/// Classifier keys for the host.
pub fn native_classifier_candidates(platform: &Platform) -> (r: Vec<String>)
    ensures
        crate::text::strings_view(r@) == classifier_candidates(
            platform.os_name@,
            opt_string_view(platform.arch_suffix),
        ),
{
    match &platform.arch_suffix {
        Some(s) => native_classifier_candidates_for(platform.os_name.as_str(), Some(s.as_str())),
        None => native_classifier_candidates_for(platform.os_name.as_str(), None),
    }
}

// ---------------------------------------------------------------------------
// Class path separator
// ---------------------------------------------------------------------------

/// `std::path::MAIN_SEPARATOR`, the separator of path components on the
/// host: `\` on Windows and `/` elsewhere.
#[verifier::external_body]
fn main_separator() -> (c: char)
    ensures
        c == '/' || c == '\\',
{
    std::path::MAIN_SEPARATOR
}

/// Whether the host writes paths the Windows way (its path separator is
/// `\`). That depends only on the target the program was built for, which
/// nothing here names, so the contract states nothing of the answer.
pub fn is_windows_host() -> (b: bool) {
    main_separator() == '\\'
}

/// Whether a platform (by its Mojang OS name) is Windows.
pub open spec fn windows_platform(os_name: Seq<char>) -> bool {
    os_name == "windows"@
}

impl Platform {
    /// Whether this platform is Windows: its class path separator is `;`
    /// and its shell quoting that of Windows.
    pub fn is_windows(&self) -> (b: bool)
        ensures
            b == windows_platform(self.os_name@),
    {
        str_eq(self.os_name.as_str(), "windows")
    }
}

/// The class path separator of a host: `;` on Windows, `:` elsewhere.
pub open spec fn path_separator_for(windows: bool) -> Seq<char> {
    if windows {
        ";"@
    } else {
        ":"@
    }
}

/// The class path separator of the host.
pub fn path_separator() -> (r: &'static str)
    ensures
        r@ == ";"@ || r@ == ":"@,
{
    if is_windows_host() {
        ";"
    } else {
        ":"
    }
}

// ---------------------------------------------------------------------------
// Features and rules
// ---------------------------------------------------------------------------

/// What the current launch offers, for the `features` gates of arguments.
#[derive(Clone, Copy, Debug)]
pub struct FeatureState {
    pub is_demo_user: bool,
    pub has_custom_resolution: bool,
    pub has_quick_plays_support: bool,
    pub is_quick_play_singleplayer: bool,
    pub is_quick_play_multiplayer: bool,
    pub is_quick_play_realms: bool,
}

pub open spec fn no_features() -> FeatureState {
    FeatureState {
        is_demo_user: false,
        has_custom_resolution: false,
        has_quick_plays_support: false,
        is_quick_play_singleplayer: false,
        is_quick_play_multiplayer: false,
        is_quick_play_realms: false,
    }
}

impl Default for FeatureState {
    fn default() -> (f: Self)
        ensures
            f == no_features(),
    {
        FeatureState {
            is_demo_user: false,
            has_custom_resolution: false,
            has_quick_plays_support: false,
            is_quick_play_singleplayer: false,
            is_quick_play_multiplayer: false,
            is_quick_play_realms: false,
        }
    }
}

impl FeatureState {
    /// Every feature off but the custom resolution, which is `custom_resolution`.
    pub fn with_custom_resolution(custom_resolution: bool) -> (f: Self)
        ensures
            f == (FeatureState { has_custom_resolution: custom_resolution, ..no_features() }),
    {
        FeatureState {
            is_demo_user: false,
            has_custom_resolution: custom_resolution,
            has_quick_plays_support: false,
            is_quick_play_singleplayer: false,
            is_quick_play_multiplayer: false,
            is_quick_play_realms: false,
        }
    }
}

/// Every feature off.
pub fn features_default() -> (f: FeatureState)
    ensures
        f == no_features(),
{
    FeatureState::default()
}

/// A flag that a rule lists matches the state; an unlisted one always does.
pub open spec fn flag_matches(flag: Option<bool>, state: bool) -> bool {
    match flag {
        Some(v) => v == state,
        None => true,
    }
}

/// The OS part of a rule holds on the platform: each listed name and arch
/// equals the platform's.
pub open spec fn os_part_holds(rule: &Rule, p: &Platform) -> bool {
    match rule.os {
        Some(os) => {
            &&& (os.name matches Some(n) ==> n@ == p.os_name@)
            &&& (os.arch matches Some(a) ==> a@ == p.os_arch@)
        },
        None => true,
    }
}

/// The features part of a rule holds: every listed flag equals the state.
pub open spec fn feature_part_holds(rule: &Rule, f: FeatureState) -> bool {
    match rule.features {
        Some(flags) => {
            &&& flag_matches(flags.is_demo_user, f.is_demo_user)
            &&& flag_matches(flags.has_custom_resolution, f.has_custom_resolution)
            &&& flag_matches(flags.has_quick_plays_support, f.has_quick_plays_support)
            &&& flag_matches(flags.is_quick_play_singleplayer, f.is_quick_play_singleplayer)
            &&& flag_matches(flags.is_quick_play_multiplayer, f.is_quick_play_multiplayer)
            &&& flag_matches(flags.is_quick_play_realms, f.is_quick_play_realms)
        },
        None => true,
    }
}

pub open spec fn rule_holds(rule: &Rule, f: FeatureState, p: &Platform) -> bool {
    os_part_holds(rule, p) && feature_part_holds(rule, f)
}

/// The outcome of applying `rules` in order from `start`: each rule that
/// holds sets the outcome to whether its action is `allow`; the last one
/// decides.
pub open spec fn rules_outcome(rules: Seq<Rule>, f: FeatureState, p: &Platform, start: bool) -> bool
    decreases rules.len(),
{
    if rules.len() == 0 {
        start
    } else {
        let before = rules_outcome(rules.drop_last(), f, p, start);
        if rule_holds(&rules.last(), f, p) {
            rules.last().action@ == "allow"@
        } else {
            before
        }
    }
}

/// Whether a rule list allows: no list, or an empty one, always allows;
/// otherwise the rules are applied in order from `default_allowed`.
pub open spec fn rules_allow_spec(
    rules: Option<Seq<Rule>>,
    f: FeatureState,
    p: &Platform,
    default_allowed: bool,
) -> bool {
    match rules {
        None => true,
        Some(rs) => rs.len() == 0 || rules_outcome(rs, f, p, default_allowed),
    }
}

pub open spec fn opt_rules_view(rules: Option<&[Rule]>) -> Option<Seq<Rule>> {
    match rules {
        Some(rs) => Some(rs@),
        None => None,
    }
}

fn opt_eq(a: &Option<String>, b: &String) -> (r: bool)
    ensures
        r == (a matches Some(x) ==> x@ == b@),
{
    match a {
        Some(x) => *x == *b,
        None => true,
    }
}

/// Whether the OS part of `rule` matches the platform.
fn os_part_matches(rule: &Rule, platform: &Platform) -> (b: bool)
    ensures
        b == os_part_holds(rule, platform),
{
    match &rule.os {
        Some(os) => {
            let name_ok = opt_eq(&os.name, &platform.os_name);
            let arch_ok = opt_eq(&os.arch, &platform.os_arch);
            name_ok && arch_ok
        },
        None => true,
    }
}

fn flag_ok(flag: Option<bool>, state: bool) -> (b: bool)
    ensures
        b == flag_matches(flag, state),
{
    match flag {
        Some(v) => v == state,
        None => true,
    }
}

/// Whether the features part of `rule` matches (an unlisted flag matches).
fn feature_part_matches(rule: &Rule, features: &FeatureState) -> (b: bool)
    ensures
        b == feature_part_holds(rule, *features),
{
    let f: FeaturesFlag = match rule.features {
        Some(f) => f,
        None => {
            return true;
        },
    };
    let mut ok = true;
    ok = ok && flag_ok(f.is_demo_user, features.is_demo_user);
    ok = ok && flag_ok(f.has_custom_resolution, features.has_custom_resolution);
    ok = ok && flag_ok(f.has_quick_plays_support, features.has_quick_plays_support);
    ok = ok && flag_ok(f.is_quick_play_singleplayer, features.is_quick_play_singleplayer);
    ok = ok && flag_ok(f.is_quick_play_multiplayer, features.is_quick_play_multiplayer);
    ok = ok && flag_ok(f.is_quick_play_realms, features.is_quick_play_realms);
    ok
}

fn rule_applies(rule: &Rule, features: &FeatureState, platform: &Platform) -> (b: bool)
    ensures
        b == rule_holds(rule, *features, platform),
{
    os_part_matches(rule, platform) && feature_part_matches(rule, features)
}

/// Applies a rule list: `None` or an empty list allows; otherwise the
/// outcome starts at `default_allowed` (`true` for libraries, which only a
/// matching `disallow` excludes; `false` for arguments, which only a
/// matching `allow` admits) and each matching rule sets it to whether its
/// action is `allow`.
pub fn rules_allow(
    rules: Option<&[Rule]>,
    features: &FeatureState,
    default_allowed: bool,
    platform: &Platform,
) -> (b: bool)
    ensures
        b == rules_allow_spec(opt_rules_view(rules), *features, platform, default_allowed),
{
    let rules = match rules {
        Some(r) => r,
        None => {
            return true;
        },
    };
    if rules.len() == 0 {
        return true;
    }
    let mut allowed = default_allowed;
    let mut i: usize = 0;
    while i < rules.len()
        invariant
            i <= rules@.len(),
            allowed == rules_outcome(rules@.take(i as int), *features, platform, default_allowed),
        decreases rules@.len() - i,
    {
        assert(rules@.take(i + 1).drop_last() =~= rules@.take(i as int));
        if rule_applies(&rules[i], features, platform) {
            allowed = str_eq(rules[i].action.as_str(), "allow");
        }
        i += 1;
    }
    assert(rules@.take(rules@.len() as int) =~= rules@);
    allowed
}

// ---------------------------------------------------------------------------
// Laws
// ---------------------------------------------------------------------------

/// Without rules, or with an empty list, everything is allowed, whatever the
/// features, platform and default.
pub proof fn no_rules_always_allow(f: FeatureState, p: &Platform, default_allowed: bool)
    ensures
        rules_allow_spec(None, f, p, default_allowed),
        rules_allow_spec(Some(Seq::empty()), f, p, default_allowed),
{
}

/// When no rule of a non-empty list matches, the default decides.
pub proof fn unmatched_rules_keep_default(
    rules: Seq<Rule>,
    f: FeatureState,
    p: &Platform,
    default_allowed: bool,
)
    requires
        rules.len() > 0,
        forall|i: int| 0 <= i < rules.len() ==> !rule_holds(&#[trigger] rules[i], f, p),
    ensures
        rules_allow_spec(Some(rules), f, p, default_allowed) == default_allowed,
    decreases rules.len(),
{
    lemma_unmatched_outcome(rules, f, p, default_allowed);
}

proof fn lemma_unmatched_outcome(rules: Seq<Rule>, f: FeatureState, p: &Platform, start: bool)
    requires
        forall|i: int| 0 <= i < rules.len() ==> !rule_holds(&#[trigger] rules[i], f, p),
    ensures
        rules_outcome(rules, f, p, start) == start,
    decreases rules.len(),
{
    if rules.len() > 0 {
        let d = rules.drop_last();
        assert forall|i: int| 0 <= i < d.len() implies !rule_holds(&#[trigger] d[i], f, p) by {
            assert(d[i] == rules[i]);
        }
        lemma_unmatched_outcome(d, f, p, start);
        assert(!rule_holds(&rules[rules.len() - 1], f, p));
    }
}

/// The last matching rule decides: when the rule at `k` matches and none
/// after it does, the list allows exactly when that rule's action is `allow`.
pub proof fn last_matching_rule_decides(
    rules: Seq<Rule>,
    f: FeatureState,
    p: &Platform,
    default_allowed: bool,
    k: int,
)
    requires
        0 <= k < rules.len(),
        rule_holds(&rules[k], f, p),
        forall|i: int| k < i < rules.len() ==> !rule_holds(&#[trigger] rules[i], f, p),
    ensures
        rules_allow_spec(Some(rules), f, p, default_allowed) == (rules[k].action@ == "allow"@),
    decreases rules.len(),
{
    if k < rules.len() - 1 {
        let d = rules.drop_last();
        assert forall|i: int| k < i < d.len() implies !rule_holds(&#[trigger] d[i], f, p) by {
            assert(d[i] == rules[i]);
        }
        assert(d[k] == rules[k]);
        last_matching_rule_decides(d, f, p, default_allowed, k);
        assert(!rule_holds(&rules[rules.len() - 1], f, p));
    }
}

/// Whatever the operating system and architecture, the system's generic
/// native key (`natives-linux`, `natives-windows`, `natives-macos`) is
/// always among the candidates, so a fallback exists; with a known
/// architecture, the architecture-specific key is tried first.
pub proof fn generic_native_key_always_offered(os: Seq<char>, arch: Option<Seq<char>>)
    ensures
        classifier_candidates(os, arch).contains(classifier_bases(os)[0]),
        arch matches Some(a) ==> classifier_candidates(os, arch)[0] == classifier_bases(os)[0] + "-"@ + a,
{
    let b = classifier_bases(os);
    let c = classifier_candidates(os, arch);
    assert(c == keys_for_base(b[0], arch) + keys_for_bases(b.drop_first(), arch));
    match arch {
        Some(a) => {
            assert(c[1] == b[0]);
        },
        None => {
            assert(c[0] == b[0]);
        },
    }
}

} // verus!
