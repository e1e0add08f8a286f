//! Game instances: the registry of installed instances, each instance's
//! settings, and how settings fall back on the launcher's defaults.

use vstd::prelude::*;

use crate::support::{base64_encode, base64_standard};
use crate::text::{
    chars_of, clone_strings, concat2, contains_char, contains_str, find,
    is_blank, is_empty_str, starts_with, str_eq, string_of, trim, trim_string,
};

verus! {

/// An entry of the instance registry.
pub struct MinecraftInstance {
    pub id: String,
    pub version_id: String,
    pub name: String,
    /// Location below `.minecraft`, `versions/<dir>`.
    pub path: String,
    pub created_at: String,
}

impl Clone for MinecraftInstance {
    fn clone(&self) -> (r: Self)
        ensures
            r == *self,
    {
        MinecraftInstance {
            id: self.id.clone(),
            version_id: self.version_id.clone(),
            name: self.name.clone(),
            path: self.path.clone(),
            created_at: self.created_at.clone(),
        }
    }
}

/// Launch settings of an instance.
pub struct InstanceConfig {
    /// Words put before the Java executable.
    pub launch_command_prefix: Vec<String>,
    /// Words put after the game arguments.
    pub launch_command_suffix: Vec<String>,
    pub jvm_args: Vec<String>,
    pub game_args: Vec<String>,
    pub width: Option<u32>,
    pub height: Option<u32>,
}

impl Default for InstanceConfig {
    fn default() -> (c: Self)
        ensures
            c.launch_command_prefix@.len() == 0,
            c.launch_command_suffix@.len() == 0,
            c.jvm_args@.len() == 0,
            c.game_args@.len() == 0,
            c.width is None,
            c.height is None,
    {
        InstanceConfig {
            launch_command_prefix: Vec::new(),
            launch_command_suffix: Vec::new(),
            jvm_args: Vec::new(),
            game_args: Vec::new(),
            width: None,
            height: None,
        }
    }
}

impl Clone for InstanceConfig {
    fn clone(&self) -> (r: Self)
        ensures
            r.launch_command_prefix@ == self.launch_command_prefix@,
            r.launch_command_suffix@ == self.launch_command_suffix@,
            r.jvm_args@ == self.jvm_args@,
            r.game_args@ == self.game_args@,
            r.width == self.width,
            r.height == self.height,
    {
        InstanceConfig {
            launch_command_prefix: clone_strings(&self.launch_command_prefix),
            launch_command_suffix: clone_strings(&self.launch_command_suffix),
            jvm_args: clone_strings(&self.jvm_args),
            game_args: clone_strings(&self.game_args),
            width: self.width,
            height: self.height,
        }
    }
}

/// Everything known of an instance, kept beside its files.
pub struct InstanceInfo {
    pub id: String,
    pub version_id: String,
    pub name: String,
    pub path: String,
    pub created_at: String,
    pub config: InstanceConfig,
}

// ---------------------------------------------------------------------------
// Directory names
// ---------------------------------------------------------------------------

/// Characters a directory name may not hold.
pub open spec fn bad_dir_char(c: char) -> bool {
    c == '/' || c == '\\' || c == ':' || c == '*' || c == '?' || c == '"' || c == '<' || c == '>'
        || c == '|' || c == '\0' || c == '\n' || c == '\r' || c == '\t'
}

/// `s` without its forbidden characters.
pub open spec fn drop_bad_chars(s: Seq<char>) -> Seq<char>
    decreases s.len(),
{
    if s.len() == 0 {
        s
    } else if bad_dir_char(s.last()) {
        drop_bad_chars(s.drop_last())
    } else {
        drop_bad_chars(s.drop_last()).push(s.last())
    }
}

/// An instance name made safe as a directory name: forbidden characters
/// dropped and the rest trimmed; empty when nothing usable is left (nothing,
/// `.` or `..`).
pub open spec fn sanitized(name: Seq<char>) -> Seq<char> {
    let t = trim(drop_bad_chars(name));
    if t.len() == 0 || t == "."@ || t == ".."@ {
        Seq::empty()
    } else {
        t
    }
}

fn is_bad_dir_char(c: char) -> (b: bool)
    ensures
        b == bad_dir_char(c),
{
    c == '/' || c == '\\' || c == ':' || c == '*' || c == '?' || c == '"' || c == '<' || c == '>'
        || c == '|' || c == '\0' || c == '\n' || c == '\r' || c == '\t'
}

/// Makes an instance name safe as a directory name; an empty result means
/// the name cannot be used.
pub fn sanitize_dir_name(name: &str) -> (r: String)
    ensures
        r@ == sanitized(name@),
{
    let v = chars_of(name);
    let mut kept: Vec<char> = Vec::new();
    let mut i: usize = 0;
    while i < v.len()
        invariant
            v@ == name@,
            i <= v@.len(),
            kept@ == drop_bad_chars(v@.take(i as int)),
        decreases v@.len() - i,
    {
        assert(v@.take(i + 1).drop_last() =~= v@.take(i as int));
        if !is_bad_dir_char(v[i]) {
            kept.push(v[i]);
        }
        i += 1;
    }
    assert(v@.take(v@.len() as int) =~= v@);
    let s = string_of(kept.as_slice());
    let t = trim_string(s.as_str());
    if is_empty_str(t.as_str()) || str_eq(t.as_str(), ".") || str_eq(t.as_str(), "..") {
        String::new()
    } else {
        t
    }
}

proof fn lemma_trim_start_suffix(s: Seq<char>) -> (k: int)
    ensures
        0 <= k <= s.len(),
        crate::text::trim_start(s) == s.subrange(k, s.len() as int),
        crate::text::trim_start(s).len() > 0 ==> !crate::text::is_ws(crate::text::trim_start(s)[0]),
    decreases s.len(),
{
    if s.len() > 0 && crate::text::is_ws(s[0]) {
        let j = lemma_trim_start_suffix(s.drop_first());
        assert(s.drop_first().subrange(j, s.drop_first().len() as int) =~= s.subrange(j + 1, s.len() as int));
        j + 1
    } else {
        assert(s.subrange(0, s.len() as int) =~= s);
        0
    }
}

proof fn lemma_trim_end_prefix(s: Seq<char>) -> (k: int)
    ensures
        0 <= k <= s.len(),
        crate::text::trim_end(s) == s.take(k),
        crate::text::trim_end(s).len() > 0 ==> !crate::text::is_ws(crate::text::trim_end(s).last()),
    decreases s.len(),
{
    if s.len() > 0 && crate::text::is_ws(s.last()) {
        let j = lemma_trim_end_prefix(s.drop_last());
        assert(s.drop_last().take(j) =~= s.take(j));
        j
    } else {
        assert(s.take(s.len() as int) =~= s);
        s.len() as int
    }
}

proof fn lemma_drop_bad_clean(s: Seq<char>)
    ensures
        forall|i: int| 0 <= i < drop_bad_chars(s).len() ==> !bad_dir_char(#[trigger] drop_bad_chars(s)[i]),
    decreases s.len(),
{
    if s.len() > 0 {
        let r = drop_bad_chars(s.drop_last());
        lemma_drop_bad_clean(s.drop_last());
        if !bad_dir_char(s.last()) {
            assert forall|i: int| 0 <= i < r.push(s.last()).len() implies !bad_dir_char(
                #[trigger] r.push(s.last())[i],
            ) by {
                if i < r.len() {
                    assert(r.push(s.last())[i] == r[i]);
                }
            }
        }
    }
}

proof fn lemma_drop_bad_keeps_clean(s: Seq<char>)
    requires
        forall|i: int| 0 <= i < s.len() ==> !bad_dir_char(#[trigger] s[i]),
    ensures
        drop_bad_chars(s) == s,
    decreases s.len(),
{
    if s.len() > 0 {
        assert(forall|i: int| 0 <= i < s.drop_last().len() ==> s.drop_last()[i] == s[i]);
        lemma_drop_bad_keeps_clean(s.drop_last());
        assert(s.drop_last().push(s.last()) =~= s);
    }
}

/// What `sanitized` gives: no forbidden character, no whitespace at either
/// end, and neither `.` nor `..`.
proof fn lemma_sanitized_shape(name: Seq<char>)
    ensures
        forall|i: int| 0 <= i < sanitized(name).len() ==> !bad_dir_char(#[trigger] sanitized(name)[i]),
        sanitized(name).len() > 0 ==> {
            &&& !crate::text::is_ws(sanitized(name)[0])
            &&& !crate::text::is_ws(sanitized(name).last())
            &&& sanitized(name) != "."@
            &&& sanitized(name) != ".."@
        },
{
    let d = drop_bad_chars(name);
    lemma_drop_bad_clean(name);
    let a = lemma_trim_start_suffix(d);
    let y = crate::text::trim_start(d);
    let b = lemma_trim_end_prefix(y);
    let t = crate::text::trim(d);
    assert(t == y.take(b));
    assert forall|i: int| 0 <= i < t.len() implies !bad_dir_char(#[trigger] t[i]) by {
        assert(t[i] == y[i]);
        assert(y[i] == d[a + i]);
    }
    if t.len() > 0 {
        assert(t[0] == y[0]);
    }
}

/// Sanitising a directory name twice gives the same name as sanitising it
/// once; the result holds no forbidden character, no whitespace at either
/// end, and is neither `.` nor `..`.
pub proof fn sanitize_dir_name_idempotent(name: Seq<char>)
    ensures
        sanitized(sanitized(name)) == sanitized(name),
        forall|i: int| 0 <= i < sanitized(name).len() ==> !bad_dir_char(#[trigger] sanitized(name)[i]),
        sanitized(name).len() > 0 ==> {
            &&& !crate::text::is_ws(sanitized(name)[0])
            &&& !crate::text::is_ws(sanitized(name).last())
        },
{
    let t = sanitized(name);
    lemma_sanitized_shape(name);
    lemma_drop_bad_keeps_clean(t);
    if t.len() > 0 {
        assert(crate::text::trim_start(t) == t);
        assert(crate::text::trim_end(t) == t);
    } else {
        assert(drop_bad_chars(t) =~= Seq::<char>::empty());
        assert(crate::text::trim_start(Seq::<char>::empty()) == Seq::<char>::empty());
        assert(crate::text::trim_end(Seq::<char>::empty()) == Seq::<char>::empty());
    }
}

/// `path` below `versions/`, when it starts so.
pub open spec fn strip_versions(path: Seq<char>) -> Option<Seq<char>> {
    if starts_with(path, "versions/"@) {
        Some(path.skip(9))
    } else {
        None
    }
}

pub fn strip_versions_prefix(path: &str) -> (r: Option<String>)
    ensures
        match r {
            Some(s) => strip_versions(path@) == Some(s@),
            None => strip_versions(path@) is None,
        },
{
    proof {
        reveal_strlit("versions/");
    }
    let v = chars_of(path);
    let p = chars_of("versions/");
    if crate::text::has_at(v.as_slice(), 0, p.as_slice()) {
        assert(v@.skip(0) =~= v@);
        assert(v@.subrange(9, v@.len() as int) =~= v@.skip(9));
        Some(string_of(&v.as_slice()[9..v.len()]))
    } else {
        assert(v@.skip(0) =~= v@);
        None
    }
}

/// The directory of an instance as the registry records it: the directory
/// of the first entry with the id, when its path lies below `versions/` and
/// names one; else the version id itself.
pub open spec fn resolved_dir(registry: Seq<MinecraftInstance>, version_id: Seq<char>) -> Seq<char> {
    match first_entry(registry, version_id, 0) {
        Some(i) => match strip_versions(registry[i].path@) {
            Some(d) => if d.len() > 0 {
                d
            } else {
                version_id
            },
            None => version_id,
        },
        None => version_id,
    }
}

/// Index of the first registry entry at or after `k` with the id.
pub open spec fn first_entry(registry: Seq<MinecraftInstance>, id: Seq<char>, k: int) -> Option<int>
    decreases registry.len() - k,
{
    if k < 0 || k >= registry.len() {
        None
    } else if registry[k].id@ == id {
        Some(k)
    } else {
        first_entry(registry, id, k + 1)
    }
}

proof fn lemma_first_entry_bounds(registry: Seq<MinecraftInstance>, id: Seq<char>, k: int)
    ensures
        first_entry(registry, id, k) matches Some(i) ==> k <= i < registry.len() && registry[i].id@
            == id,
    decreases registry.len() - k,
{
    if 0 <= k < registry.len() && registry[k].id@ != id {
        lemma_first_entry_bounds(registry, id, k + 1);
    }
}

fn find_entry(registry: &[MinecraftInstance], id: &str) -> (r: Option<usize>)
    ensures
        match r {
            Some(i) => first_entry(registry@, id@, 0) == Some(i as int),
            None => first_entry(registry@, id@, 0) is None,
        },
{
    let mut k: usize = 0;
    while k < registry.len()
        invariant
            k <= registry@.len(),
            first_entry(registry@, id@, 0) == first_entry(registry@, id@, k as int),
        decreases registry@.len() - k,
    {
        if str_eq(registry[k].id.as_str(), id) {
            return Some(k);
        }
        k += 1;
    }
    None
}

/// The directory name of an instance, from the registry.
pub fn resolve_dir(registry: &[MinecraftInstance], version_id: &str) -> (r: String)
    ensures
        r@ == resolved_dir(registry@, version_id@),
{
    proof {
        lemma_first_entry_bounds(registry@, version_id@, 0);
    }
    match find_entry(registry, version_id) {
        Some(i) => match strip_versions_prefix(registry[i].path.as_str()) {
            Some(d) => {
                if !is_empty_str(d.as_str()) {
                    d
                } else {
                    version_id.to_owned()
                }
            },
            None => version_id.to_owned(),
        },
        None => version_id.to_owned(),
    }
}

// ---------------------------------------------------------------------------
// Settings and the registry
// ---------------------------------------------------------------------------

/// A list setting of an instance, or the default when the instance leaves it
/// empty.
pub open spec fn pick_list(own: Seq<String>, default: Seq<String>) -> Seq<String> {
    if own.len() == 0 {
        default
    } else {
        own
    }
}

pub open spec fn or_opt(a: Option<u32>, b: Option<u32>) -> Option<u32> {
    match a {
        Some(x) => Some(x),
        None => b,
    }
}

/// The settings of `config` with each empty list, and each unset size, taken
/// from `defaults`.
pub open spec fn merged_config(config: InstanceConfig, defaults: InstanceConfig) -> (
    Seq<String>,
    Seq<String>,
    Seq<String>,
    Seq<String>,
    Option<u32>,
    Option<u32>,
) {
    (
        pick_list(config.launch_command_prefix@, defaults.launch_command_prefix@),
        pick_list(config.launch_command_suffix@, defaults.launch_command_suffix@),
        pick_list(config.jvm_args@, defaults.jvm_args@),
        pick_list(config.game_args@, defaults.game_args@),
        or_opt(config.width, defaults.width),
        or_opt(config.height, defaults.height),
    )
}

pub open spec fn config_parts(c: InstanceConfig) -> (
    Seq<String>,
    Seq<String>,
    Seq<String>,
    Seq<String>,
    Option<u32>,
    Option<u32>,
) {
    (c.launch_command_prefix@, c.launch_command_suffix@, c.jvm_args@, c.game_args@, c.width, c.height)
}

fn pick(own: Vec<String>, default: &Vec<String>) -> (r: Vec<String>)
    ensures
        r@ == pick_list(own@, default@),
{
    if own.len() == 0 {
        clone_strings(default)
    } else {
        own
    }
}

/// Instance settings over the launcher's defaults: a list the instance
/// leaves empty, and a size it leaves unset, come from the defaults.
pub fn merge_with_defaults(config: InstanceConfig, defaults: &InstanceConfig) -> (r: InstanceConfig)
    ensures
        config_parts(r) == merged_config(config, *defaults),
{
    let InstanceConfig { launch_command_prefix, launch_command_suffix, jvm_args, game_args, width, height } = config;
    InstanceConfig {
        launch_command_prefix: pick(launch_command_prefix, &defaults.launch_command_prefix),
        launch_command_suffix: pick(launch_command_suffix, &defaults.launch_command_suffix),
        jvm_args: pick(jvm_args, &defaults.jvm_args),
        game_args: pick(game_args, &defaults.game_args),
        width: match width {
            Some(w) => Some(w),
            None => defaults.width,
        },
        height: match height {
            Some(h) => Some(h),
            None => defaults.height,
        },
    }
}

/// Merging twice with the same defaults changes nothing more.
pub proof fn merge_is_idempotent(a: InstanceConfig, b: InstanceConfig, defaults: InstanceConfig)
    requires
        config_parts(b) == merged_config(a, defaults),
    ensures
        merged_config(b, defaults) == config_parts(b),
{
}

/// The registry path of an instance directory, `versions/<dir>`.
pub fn instance_path(dir_name: &str) -> (r: String)
    ensures
        r@ == "versions/"@ + dir_name@,
{
    concat2("versions/", dir_name)
}

/// Creates or updates the instance: its full record and its registry entry,
/// both named after the version (or `name`), located in `dir_name` and
/// stamped `created_at`; settings are merged over `defaults`.
pub fn new_instance(
    version_id: &str,
    name: Option<String>,
    config: Option<InstanceConfig>,
    defaults: &InstanceConfig,
    dir_name: &str,
    created_at: &str,
) -> (r: (InstanceInfo, MinecraftInstance))
    ensures
        r.0.id@ == version_id@ && r.0.version_id@ == version_id@,
        r.0.name@ == (match name {
            Some(n) => n@,
            None => version_id@,
        }),
        r.0.path@ == "versions/"@ + dir_name@,
        r.0.created_at@ == created_at@,
        config_parts(r.0.config) == (match config {
            Some(c) => merged_config(c, *defaults),
            None => config_parts(*defaults),
        }),
        r.1.id@ == version_id@ && r.1.version_id@ == version_id@ && r.1.name@ == r.0.name@
            && r.1.path@ == r.0.path@ && r.1.created_at@ == created_at@,
{
    let instance_name = match name {
        Some(n) => n,
        None => version_id.to_owned(),
    };
    let ghost base = config;
    let own = match config {
        Some(c) => c,
        None => InstanceConfig::default(),
    };
    let merged = merge_with_defaults(own, defaults);
    proof {
        if base is None {
            assert(pick_list(own.launch_command_prefix@, defaults.launch_command_prefix@)
                == defaults.launch_command_prefix@);
        }
    }
    let info = InstanceInfo {
        id: version_id.to_owned(),
        version_id: version_id.to_owned(),
        name: instance_name.clone(),
        path: instance_path(dir_name),
        created_at: created_at.to_owned(),
        config: merged,
    };
    let entry = MinecraftInstance {
        id: version_id.to_owned(),
        version_id: version_id.to_owned(),
        name: instance_name,
        path: instance_path(dir_name),
        created_at: created_at.to_owned(),
    };
    (info, entry)
}

/// The registry after an upsert of `entry`: the first entry with its id is
/// replaced, or `entry` is appended when there is none.
pub open spec fn upserted(registry: Seq<MinecraftInstance>, entry: MinecraftInstance) -> Seq<
    MinecraftInstance,
> {
    match first_entry(registry, entry.id@, 0) {
        Some(i) => registry.update(i, entry),
        None => registry.push(entry),
    }
}

/// Replaces the first entry with the id of `entry`, or appends it.
pub fn upsert_entry(registry: &mut Vec<MinecraftInstance>, entry: MinecraftInstance)
    ensures
        final(registry)@ == upserted(old(registry)@, entry),
{
    proof {
        lemma_first_entry_bounds(registry@, entry.id@, 0);
    }
    match find_entry(registry.as_slice(), entry.id.as_str()) {
        Some(i) => {
            registry.set(i, entry);
        },
        None => {
            registry.push(entry);
        },
    }
}

/// An upsert leaves exactly one entry for the id where there was at most
/// one, and never changes the entries of other ids.
pub proof fn upsert_keeps_others(registry: Seq<MinecraftInstance>, entry: MinecraftInstance, k: int)
    requires
        0 <= k < registry.len(),
        registry[k].id@ != entry.id@,
    ensures
        upserted(registry, entry)[k] == registry[k],
{
    lemma_first_entry_bounds(registry, entry.id@, 0);
}

/// The registry after the instance `id` is renamed: the first entry with the
/// id gets the new name.
pub open spec fn renamed(registry: Seq<MinecraftInstance>, id: Seq<char>, name: Seq<char>) -> Seq<
    Seq<char>,
> {
    Seq::new(
        registry.len(),
        |i: int|
            if first_entry(registry, id, 0) == Some(i) {
                name
            } else {
                registry[i].name@
            },
    )
}

pub open spec fn entry_names(registry: Seq<MinecraftInstance>) -> Seq<Seq<char>> {
    Seq::new(registry.len(), |i: int| registry[i].name@)
}

/// Gives the first entry with the id the new name; other fields stay.
pub fn rename_entry(registry: &mut Vec<MinecraftInstance>, id: &str, name: &str)
    ensures
        entry_names(final(registry)@) == renamed(old(registry)@, id@, name@),
        final(registry)@.len() == old(registry)@.len(),
        forall|i: int|
            0 <= i < old(registry)@.len() ==> (#[trigger] final(registry)@[i]).id == old(
                registry,
            )@[i].id && final(registry)@[i].path == old(registry)@[i].path,
{
    proof {
        lemma_first_entry_bounds(registry@, id@, 0);
    }
    match find_entry(registry.as_slice(), id) {
        Some(i) => {
            let mut e = registry[i].clone();
            e.name = name.to_owned();
            registry.set(i, e);
            assert(entry_names(registry@) =~= renamed(old(registry)@, id@, name@));
        },
        None => {
            assert(entry_names(registry@) =~= renamed(old(registry)@, id@, name@));
        },
    }
}

/// What an update makes of an instance record: a non-blank new name,
/// trimmed, replaces the old one; new settings are merged over the defaults.
pub fn apply_update(
    info: InstanceInfo,
    name: Option<String>,
    config: Option<InstanceConfig>,
    defaults: &InstanceConfig,
) -> (r: InstanceInfo)
    ensures
        r.id == info.id && r.version_id == info.version_id && r.path == info.path
            && r.created_at == info.created_at,
        r.name@ == (match name {
            Some(n) => if trim(n@).len() > 0 {
                trim(n@)
            } else {
                info.name@
            },
            None => info.name@,
        }),
        config_parts(r.config) == (match config {
            Some(c) => merged_config(c, *defaults),
            None => config_parts(info.config),
        }),
{
    let mut info = info;
    match name {
        Some(n) => {
            if !is_blank(n.as_str()) {
                info.name = trim_string(n.as_str());
            }
        },
        None => {},
    }
    match config {
        Some(c) => {
            info.config = merge_with_defaults(c, defaults);
        },
        None => {},
    }
    info
}

// ---------------------------------------------------------------------------
// Instance icons
// ---------------------------------------------------------------------------

/// A directory name that stays inside `versions/`: non-empty, with no path
/// separator and no `..`.
pub open spec fn safe_icon_dir(dir_name: Seq<char>) -> bool {
    &&& dir_name.len() > 0
    &&& !dir_name.contains('/')
    &&& !dir_name.contains('\\')
    &&& find(dir_name, ".."@) is None
}

/// Whether an icon may be looked up for `dir_name`.
pub fn icon_dir_ok(dir_name: &str) -> (b: bool)
    ensures
        b == safe_icon_dir(dir_name@),
{
    !is_empty_str(dir_name) && !contains_char(dir_name, '/') && !contains_char(dir_name, '\\')
        && !contains_str(dir_name, "..")
}

/// The data URL of a PNG icon: `data:image/png;base64,` and its base64.
pub fn icon_data_url(png: &[u8]) -> (r: String)
    ensures
        r@ == "data:image/png;base64,"@ + base64_standard(png@),
{
    let b = base64_encode(png);
    concat2("data:image/png;base64,", b.as_str())
}

} // verus!
