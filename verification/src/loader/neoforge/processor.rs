//! The decisions of running NeoForge's processors: which entries are Maven
//! coordinates, which outputs carry a digest, a jar's main class, a
//! processor's class path, data values, and what of a failed run is shown.
//!
//! Only processors for the client run, one after another; their arguments
//! go to Java word by word (no shell), with the host's class path
//! separator.

use vstd::prelude::*;

use crate::loader::maven::{coordinate_of, maven_path, relative_path_of};
use crate::loader::neoforge::profile::{DataEntry, Processor, ProfileLibrary};
use crate::text::{
    char_vecs_view, chars_of, contains_char, find, join, join_strings, lines, lines_exec, starts_with,
    str_eq, string_of, strings_view, trim, trim_string,
};

verus! {

/// The number of times `c` occurs in `s`.
pub open spec fn count_char(s: Seq<char>, c: char) -> int
    decreases s.len(),
{
    if s.len() == 0 {
        0
    } else {
        count_char(s.drop_last(), c) + if s.last() == c { 1int } else { 0int }
    }
}

/// A class path entry names a Maven coordinate when it holds no path
/// separator, does not start with `[` or `{`, and has at least two `:`.
pub open spec fn coordinate_like(s: Seq<char>) -> bool {
    !s.contains('/') && !s.contains('\\') && !(s.len() > 0 && (s[0] == '[' || s[0] == '{'))
        && count_char(s, ':') >= 2
}

/// Whether a class path entry names a Maven coordinate.
pub fn is_coordinate(s: &str) -> (b: bool)
    ensures
        b == coordinate_like(s@),
{
    if contains_char(s, '/') || contains_char(s, '\\') {
        return false;
    }
    let v = chars_of(s);
    if v.len() > 0 && (v[0] == '[' || v[0] == '{') {
        return false;
    }
    let mut n: u64 = 0;
    let mut i: usize = 0;
    while i < v.len()
        invariant
            v@ == s@,
            i <= v@.len(),
            n == count_char(v@.take(i as int), ':'),
            n <= i,
        decreases v@.len() - i,
    {
        assert(v@.take(i + 1).drop_last() =~= v@.take(i as int));
        if v[i] == ':' {
            n += 1;
        }
        i += 1;
    }
    assert(v@.take(v@.len() as int) =~= v@);
    n >= 2
}

pub open spec fn is_hex_char(c: char) -> bool {
    ('0' <= c && c <= '9') || ('a' <= c && c <= 'f') || ('A' <= c && c <= 'F')
}

/// An expected output value is a digest when, trimmed, it is 40
/// hexadecimal digits.
pub open spec fn sha_like(v: Seq<char>) -> bool {
    let t = trim(v);
    t.len() == 40 && forall|i: int| 0 <= i < t.len() ==> is_hex_char(#[trigger] t[i])
}

/// Whether an expected output value is a SHA-1 digest.
pub fn expected_sha(value: &str) -> (b: bool)
    ensures
        b == sha_like(value@),
{
    let t = trim_string(value);
    let v = chars_of(t.as_str());
    if v.len() != 40 {
        return false;
    }
    let mut i: usize = 0;
    while i < v.len()
        invariant
            i <= v@.len(),
            v@ == trim(value@),
            v@.len() == 40,
            forall|k: int| 0 <= k < i ==> is_hex_char(#[trigger] v@[k]),
        decreases v@.len() - i,
    {
        let c = v[i];
        if !(('0' <= c && c <= '9') || ('a' <= c && c <= 'f') || ('A' <= c && c <= 'F')) {
            assert(!is_hex_char(v@[i as int]));
            return false;
        }
        i += 1;
    }
    true
}

/// `s` without its trailing carriage returns.
pub open spec fn trim_crs(s: Seq<char>) -> Seq<char>
    decreases s.len(),
{
    if s.len() > 0 && s.last() == '\r' {
        trim_crs(s.drop_last())
    } else {
        s
    }
}

/// The first line (carriage returns dropped) at or after `k` that starts
/// with `Main-Class:`, the rest of it trimmed.
pub open spec fn main_class_from(ls: Seq<Seq<char>>, k: int) -> Option<Seq<char>>
    decreases ls.len() - k,
{
    if k < 0 || k >= ls.len() {
        None
    } else if starts_with(trim_crs(ls[k]), "Main-Class:"@) {
        Some(trim(trim_crs(ls[k]).skip(11)))
    } else {
        main_class_from(ls, k + 1)
    }
}

fn trim_crs_exec(v: &[char]) -> (r: Vec<char>)
    ensures
        r@ == trim_crs(v@),
{
    let mut n = v.len();
    assert(v@.take(n as int) =~= v@);
    while n > 0 && v[n - 1] == '\r'
        invariant
            n <= v@.len(),
            trim_crs(v@.take(n as int)) == trim_crs(v@),
        decreases n,
    {
        assert(v@.take(n as int).drop_last() =~= v@.take(n - 1));
        n -= 1;
    }
    crate::text::sub_vec(v, 0, n)
}

/// The `Main-Class` of a jar manifest, if it names one.
pub fn main_class_from_manifest(text: &str) -> (r: Option<String>)
    ensures
        match r {
            Some(m) => main_class_from(lines(text@), 0) == Some(m@),
            None => main_class_from(lines(text@), 0) is None,
        },
{
    proof {
        reveal_strlit("Main-Class:");
    }
    let t = chars_of(text);
    let ls = lines_exec(t.as_slice());
    let ghost lv = char_vecs_view(ls@);
    let key = ['M', 'a', 'i', 'n', '-', 'C', 'l', 'a', 's', 's', ':'];
    assert(key@ =~= "Main-Class:"@);
    let mut k: usize = 0;
    while k < ls.len()
        invariant
            k <= ls@.len(),
            lv == char_vecs_view(ls@),
            lv == lines(text@),
            key@ == "Main-Class:"@,
            main_class_from(lv, 0) == main_class_from(lv, k as int),
        decreases ls@.len() - k,
    {
        let line = trim_crs_exec(ls[k].as_slice());
        assert(line@ == trim_crs(lv[k as int]));
        if crate::text::has_at(line.as_slice(), 0, key.as_slice()) {
            assert(line@.skip(0) =~= line@);
            let rest = string_of(&line.as_slice()[11..line.len()]);
            assert(rest@ =~= line@.skip(11));
            return Some(trim_string(rest.as_str()));
        }
        assert(line@.skip(0) =~= line@);
        k += 1;
    }
    None
}

/// The class path of a processor: its listed entries, with its own jar
/// added at the end when they do not name it.
pub open spec fn processor_classpath_spec(p: Processor) -> Seq<Seq<char>> {
    let items = match p.classpath {
        Some(c) => strings_view(c@),
        None => Seq::empty(),
    };
    if items.contains(p.jar@) {
        items
    } else {
        items.push(p.jar@)
    }
}

/// The class path entries of a processor.
pub fn processor_classpath(p: &Processor) -> (r: Vec<String>)
    ensures
        strings_view(r@) == processor_classpath_spec(*p),
{
    let mut items: Vec<String> = match &p.classpath {
        Some(c) => crate::text::clone_strings(c),
        None => Vec::new(),
    };
    let mut found = false;
    let mut i: usize = 0;
    while i < items.len()
        invariant
            i <= items@.len(),
            found == strings_view(items@.take(i as int)).contains(p.jar@),
        decreases items@.len() - i,
    {
        assert(strings_view(items@.take(i + 1)) =~= strings_view(items@.take(i as int)).push(items@[i as int]@));
        proof {
            vstd::seq_lib::lemma_seq_contains_after_push(strings_view(items@.take(i as int)), items@[i as int]@, p.jar@);
        }
        if items[i] == p.jar {
            found = true;
        }
        i += 1;
    }
    assert(items@.take(items@.len() as int) =~= items@);
    if !found {
        let ghost before = strings_view(items@);
        items.push(p.jar.clone());
        assert(strings_view(items@) =~= before.push(p.jar@));
    }
    items
}

/// What shows of a failed processor run: the last twelve lines of its
/// output, joined by line feeds.
pub open spec fn output_tail_spec(text: Seq<char>) -> Seq<char> {
    let ls = lines(text);
    let start = if ls.len() > 12 { ls.len() - 12 } else { 0 };
    join(ls.skip(start), "\n"@)
}

/// The last twelve lines of a failed run's output.
pub fn output_tail(text: &str) -> (r: String)
    ensures
        r@ == output_tail_spec(text@),
{
    let t = chars_of(text);
    let ls = lines_exec(t.as_slice());
    let n = ls.len();
    let start = if n > 12 { n - 12 } else { 0 };
    let mut picked: Vec<String> = Vec::new();
    let mut i = start;
    while i < n
        invariant
            start <= i <= n,
            n == ls@.len(),
            char_vecs_view(ls@) == lines(text@),
            strings_view(picked@) == char_vecs_view(ls@).subrange(start as int, i as int),
        decreases n - i,
    {
        let s = string_of(ls[i].as_slice());
        assert(char_vecs_view(ls@)[i as int] == ls@[i as int]@);
        let ghost before = strings_view(picked@);
        picked.push(s);
        assert(strings_view(picked@) =~= before.push(s@));
        assert(strings_view(picked@) =~= char_vecs_view(ls@).subrange(start as int, i + 1));
        i += 1;
    }
    assert(char_vecs_view(ls@).subrange(start as int, n as int) =~= lines(text@).skip(start as int));
    join_strings(picked.as_slice(), "\n")
}

/// A data variable's value for the client: its client value, else its
/// server value (the first entry with the key).
pub open spec fn data_value_spec(data: Seq<(String, DataEntry)>, key: Seq<char>, k: int) -> Option<Seq<char>>
    decreases data.len() - k,
{
    if k < 0 || k >= data.len() {
        None
    } else if data[k].0@ == key {
        match data[k].1.client {
            Some(c) => Some(c@),
            None => match data[k].1.server {
                Some(s) => Some(s@),
                None => None,
            },
        }
    } else {
        data_value_spec(data, key, k + 1)
    }
}

/// The client value of a data variable.
pub fn data_entry_of(data: &[(String, DataEntry)], key: &str) -> (r: Option<String>)
    ensures
        match r {
            Some(v) => data_value_spec(data@, key@, 0) == Some(v@),
            None => data_value_spec(data@, key@, 0) is None,
        },
{
    let mut k: usize = 0;
    while k < data.len()
        invariant
            k <= data@.len(),
            data_value_spec(data@, key@, 0) == data_value_spec(data@, key@, k as int),
        decreases data@.len() - k,
    {
        if str_eq(data[k].0.as_str(), key) {
            return match &data[k].1.client {
                Some(c) => Some(c.clone()),
                None => match &data[k].1.server {
                    Some(s) => Some(s.clone()),
                    None => None,
                },
            };
        }
        k += 1;
    }
    None
}

/// What a data value stands for.
#[derive(Debug)]
pub enum DataValue {
    /// A literal (quoted `'…'`, or anything not otherwise recognised).
    Literal(String),
    /// A library, by its coordinate (`[…]`).
    Library(String),
    /// A file inside the installer (`data/…`, a leading `/` dropped).
    InstallerFile(String),
}

/// How a data value reads, trimmed: `'text'` is the literal `text`;
/// `[coord]` the library `coord`; `data/…` (after one leading `/`) a file
/// of the installer; anything else the literal itself.
pub open spec fn data_value_kind(raw: Seq<char>) -> (int, Seq<char>) {
    let t = trim(raw);
    if t.len() >= 2 && t[0] == '\'' && t.last() == '\'' {
        (0, t.subrange(1, t.len() - 1))
    } else if t.len() >= 2 && t[0] == '[' && t.last() == ']' {
        (1, t.subrange(1, t.len() - 1))
    } else {
        let e = if t.len() > 0 && t[0] == '/' { t.skip(1) } else { t };
        if starts_with(e, "data/"@) {
            (2, e)
        } else {
            (0, t)
        }
    }
}

/// Reads a data value (see `data_value_kind`).
pub fn classify_data_value(raw: &str) -> (r: DataValue)
    requires
        trim(raw@) != seq!['['],
    ensures
        match r {
            DataValue::Literal(s) => data_value_kind(raw@) == (0int, s@),
            DataValue::Library(s) => data_value_kind(raw@) == (1int, s@),
            DataValue::InstallerFile(s) => data_value_kind(raw@) == (2int, s@),
        },
{
    proof {
        reveal_strlit("data/");
    }
    let t = trim_string(raw);
    let v = chars_of(t.as_str());
    let n = v.len();
    if n >= 2 && v[0] == '\'' && v[n - 1] == '\'' {
        return DataValue::Literal(string_of(&v.as_slice()[1..n - 1]));
    }
    if n >= 2 && v[0] == '[' && v[n - 1] == ']' {
        return DataValue::Library(string_of(&v.as_slice()[1..n - 1]));
    }
    let lo: usize = if n > 0 && v[0] == '/' { 1 } else { 0 };
    let e = crate::text::sub_vec(v.as_slice(), lo, n);
    assert(e@ =~= (if n > 0 && v@[0] == '/' { v@.skip(1) } else { v@ }));
    let d = ['d', 'a', 't', 'a', '/'];
    assert(d@ =~= "data/"@);
    assert(e@.skip(0) =~= e@);
    if crate::text::has_at(e.as_slice(), 0, d.as_slice()) {
        DataValue::InstallerFile(string_of(e.as_slice()))
    } else {
        DataValue::Literal(t)
    }
}

/// The path below the libraries directory of a library of the install
/// profile: its artifact's path; else its coordinate's Maven path; else
/// its name with dots as slashes.
pub open spec fn profile_lib_path(lib: ProfileLibrary) -> Seq<char> {
    match lib.downloads {
        Some(d) => match d.artifact {
            Some(a) => a.path@,
            None => fallback_path(lib.name@),
        },
        None => fallback_path(lib.name@),
    }
}

pub open spec fn fallback_path(name: Seq<char>) -> Seq<char> {
    match coordinate_of(name) {
        Some(c) => maven_path(c),
        None => crate::loader::maven::dots_to_slashes(name),
    }
}

fn dots_to_slashes_exec(s: &str) -> (r: String)
    ensures
        r@ == crate::loader::maven::dots_to_slashes(s@),
{
    let v = chars_of(s);
    let mut out: Vec<char> = Vec::new();
    let mut i: usize = 0;
    while i < v.len()
        invariant
            v@ == s@,
            i <= v@.len(),
            out@ == crate::loader::maven::dots_to_slashes(v@.take(i as int)),
        decreases v@.len() - i,
    {
        out.push(if v[i] == '.' { '/' } else { v[i] });
        assert(out@ =~= crate::loader::maven::dots_to_slashes(v@.take(i + 1)));
        i += 1;
    }
    assert(v@.take(v@.len() as int) =~= v@);
    string_of(out.as_slice())
}

/// The path of an install-profile library below the libraries directory.
pub fn library_rel_path(lib: &ProfileLibrary) -> (r: String)
    ensures
        r@ == profile_lib_path(*lib),
{
    match lib.artifact() {
        Some(a) => a.path.clone(),
        None => match relative_path_of(lib.name.as_str()) {
            Some(p) => p,
            None => dots_to_slashes_exec(lib.name.as_str()),
        },
    }
}

/// An installer entry path is safe when, with `\` read as `/`, none of its
/// parts is `..`.
pub open spec fn safe_entry(entry: Seq<char>) -> bool {
    let n = entry.map_values(|c: char| if c == '\\' { '/' } else { c });
    !crate::text::split_all(n, '/').contains(".."@)
}

/// Whether an installer entry path stays inside the installer.
pub fn entry_path_safe(entry: &str) -> (b: bool)
    ensures
        b == safe_entry(entry@),
{
    proof {
        reveal_strlit("..");
    }
    let v = chars_of(entry);
    let mut n: Vec<char> = Vec::new();
    let mut i: usize = 0;
    while i < v.len()
        invariant
            v@ == entry@,
            i <= v@.len(),
            n@ == v@.take(i as int).map_values(|c: char| if c == '\\' { '/' } else { c }),
        decreases v@.len() - i,
    {
        n.push(if v[i] == '\\' { '/' } else { v[i] });
        assert(n@ =~= v@.take(i + 1).map_values(|c: char| if c == '\\' { '/' } else { c }));
        i += 1;
    }
    assert(v@.take(v@.len() as int) =~= v@);
    let parts = crate::text::split_chars(n.as_slice(), '/');
    let ghost pv = char_vecs_view(parts@);
    assert(".."@ =~= seq!['.', '.']);
    let mut k: usize = 0;
    while k < parts.len()
        invariant
            k <= parts@.len(),
            pv == char_vecs_view(parts@),
            ".."@ == seq!['.', '.'],
            pv == crate::text::split_all(n@, '/'),
            n@ == entry@.map_values(|c: char| if c == '\\' { '/' } else { c }),
            forall|j: int| 0 <= j < k ==> pv[j] != ".."@,
        decreases parts@.len() - k,
    {
        let p = &parts[k];
        assert(pv[k as int] == p@);
        if p.len() == 2 && p[0] == '.' && p[1] == '.' {
            assert(pv[k as int] =~= ".."@);
            return false;
        }
        assert(pv[k as int] != ".."@) by {
            if pv[k as int] == ".."@ {
                assert(p@.len() == 2 && p@[0] == '.' && p@[1] == '.');
            }
        }
        k += 1;
    }
    true
}

} // verus!

verus! {

use crate::launcher::command::{lookup, pairs_view};

/// Expansion of a processor argument (after the quoted-literal case): each
/// `{KEY}` becomes its value, or stays as it is when unknown; each
/// `[coordinate]` becomes the library's path, or stays when unknown; an
/// unclosed `{` or `[` stays; everything else is copied.
pub open spec fn proc_expand(
    t: Seq<char>,
    vals: Seq<(Seq<char>, Seq<char>)>,
    libs: Seq<(Seq<char>, Seq<char>)>,
    dir: Seq<char>,
    sep: char,
) -> Seq<char>
    decreases t.len(),
{
    if t.len() == 0 {
        t
    } else if t[0] == '{' || t[0] == '[' {
        let close = if t[0] == '{' { '}' } else { ']' };
        match crate::text::find_from(t.skip(1), seq![close], 0, false) {
            Some(e) => {
                proof {
                    crate::text::lemma_find_from_bounds(t.skip(1), seq![close], 0, false);
                }
                let key = t.subrange(1, 1 + e);
                let v = if t[0] == '[' {
                    lib_path(libs, key, dir, sep)
                } else {
                    match lookup(vals, key) {
                        Some(x) => x,
                        None => seq!['{'] + key + seq!['}'],
                    }
                };
                v + proc_expand(t.skip(e + 2), vals, libs, dir, sep)
            },
            None => seq![t[0]] + proc_expand(t.skip(1), vals, libs, dir, sep),
        }
    } else {
        seq![t[0]] + proc_expand(t.skip(1), vals, libs, dir, sep)
    }
}

/// A processor argument expanded: a quoted `'literal'` (after trimming) is
/// the literal; anything else is expanded as `proc_expand` says.
pub open spec fn processor_arg(
    raw: Seq<char>,
    vals: Seq<(Seq<char>, Seq<char>)>,
    libs: Seq<(Seq<char>, Seq<char>)>,
    dir: Seq<char>,
    sep: char,
) -> Seq<char> {
    let t = trim(raw);
    if t.len() >= 2 && t[0] == '\'' && t.last() == '\'' {
        t.subrange(1, t.len() - 1)
    } else {
        proc_expand(raw, vals, libs, dir, sep)
    }
}

/// Where a library named by `coord` lies: below the libraries directory
/// `dir` (joined with `sep`), at the path the install profile gives it,
/// else at its coordinate's Maven path, else at its name with dots as
/// slashes.
pub open spec fn lib_path(libs: Seq<(Seq<char>, Seq<char>)>, coord: Seq<char>, dir: Seq<char>, sep: char) -> Seq<char> {
    dir + seq![sep] + match lookup(libs, coord) {
        Some(rel) => rel,
        None => fallback_path(coord),
    }
}

/// The file of the library named by `coord`: `libraries` holds the paths
/// (below the libraries directory) of the install profile's libraries by
/// name; `sep` is the host's path separator.
pub fn library_path_of(coord: &str, libraries: &[(String, String)], library_dir: &str, sep: char) -> (r: String)
    ensures
        r@ == lib_path(pairs_view(libraries@), coord@, library_dir@, sep),
{
    let rel = match lookup_in(libraries, coord) {
        Some(p) => p.clone(),
        None => match relative_path_of(coord) {
            Some(p) => p,
            None => dots_to_slashes_exec(coord),
        },
    };
    let mut out = library_dir.to_owned();
    let mut one: Vec<char> = Vec::new();
    one.push(sep);
    let sep_s = string_of(one.as_slice());
    crate::text::push_str(&mut out, sep_s.as_str());
    crate::text::push_str(&mut out, rel.as_str());
    out
}

fn lookup_in<'a>(table: &'a [(String, String)], key: &str) -> (r: Option<&'a String>)
    ensures
        match r {
            Some(v) => lookup(pairs_view(table@), key@) == Some(v@),
            None => lookup(pairs_view(table@), key@) is None,
        },
{
    let ghost pv = pairs_view(table@);
    let mut i: usize = 0;
    assert(pv.skip(0) =~= pv);
    while i < table.len()
        invariant
            i <= table@.len(),
            pv == pairs_view(table@),
            lookup(pv, key@) == lookup(pv.skip(i as int), key@),
        decreases table@.len() - i,
    {
        assert(pv.skip(i as int).drop_first() =~= pv.skip(i + 1));
        assert(pv.skip(i as int)[0] == (table@[i as int].0@, table@[i as int].1@));
        if str_eq(table[i].0.as_str(), key) {
            return Some(&table[i].1);
        }
        i += 1;
    }
    None
}

/// Expands a processor argument: `values` holds the known `{KEY}` values
/// (the fixed ones first, then the data values); a `[coordinate]` becomes
/// its library's file (see `library_path_of`).
pub fn expand_processor_arg(
    raw: &str,
    values: &[(String, String)],
    libraries: &[(String, String)],
    library_dir: &str,
    sep: char,
) -> (r: String)
    ensures
        r@ == processor_arg(raw@, pairs_view(values@), pairs_view(libraries@), library_dir@, sep),
{
    let t = trim_string(raw);
    let tv = chars_of(t.as_str());
    let tn = tv.len();
    if tn >= 2 && tv[0] == '\'' && tv[tn - 1] == '\'' {
        return string_of(&tv.as_slice()[1..tn - 1]);
    }
    let v = chars_of(raw);
    let n = v.len();
    let ghost vals = pairs_view(values@);
    let ghost libs = pairs_view(libraries@);
    let mut out: Vec<char> = Vec::new();
    let mut i: usize = 0;
    assert(v@.skip(0) =~= v@);
    while i < n
        invariant
            n == v@.len(),
            v@ == raw@,
            i <= n,
            vals == pairs_view(values@),
            libs == pairs_view(libraries@),
            proc_expand(raw@, vals, libs, library_dir@, sep) == out@ + proc_expand(
                v@.skip(i as int),
                vals,
                libs,
                library_dir@,
                sep,
            ),
        decreases n - i,
    {
        let ghost rest = v@.skip(i as int);
        let ghost before = out@;
        let c = v[i];
        assert(rest[0] == c);
        if c == '{' || c == '[' {
            let close = if c == '{' { '}' } else { ']' };
            proof {
                crate::text::lemma_find_shift(v@, seq![close], i + 1, 0, false);
                crate::text::lemma_find_from_bounds(v@, seq![close], i + 1, false);
                assert(rest.skip(1) =~= v@.skip(i + 1));
            }
            match crate::text::find_char(v.as_slice(), close, i + 1) {
                Some(end) => {
                    let key = string_of(&v.as_slice()[i + 1..end]);
                    assert(key@ =~= rest.subrange(1, 1 + (end - (i + 1))));
                    if c == '[' {
                        let p = library_path_of(key.as_str(), libraries, library_dir, sep);
                        let pc = chars_of(p.as_str());
                        crate::text::extend_chars(&mut out, pc.as_slice());
                    } else {
                        match lookup_in(values, key.as_str()) {
                            Some(val) => {
                                let vc = chars_of(val.as_str());
                                crate::text::extend_chars(&mut out, vc.as_slice());
                            },
                            None => {
                                out.push('{');
                                let kc = chars_of(key.as_str());
                                crate::text::extend_chars(&mut out, kc.as_slice());
                                out.push('}');
                                assert(out@ =~= before + (seq!['{'] + key@ + seq!['}']));
                            },
                        }
                    }
                    assert(rest.skip(end - (i + 1) + 2) =~= v@.skip(end + 1));
                    i = end + 1;
                },
                None => {
                    out.push(c);
                    assert(out@ =~= before + seq![c]);
                    i = i + 1;
                },
            }
        } else {
            out.push(c);
            assert(out@ =~= before + seq![c]);
            assert(rest.skip(1) =~= v@.skip(i + 1));
            i = i + 1;
        }
    }
    assert(v@.skip(n as int) =~= Seq::<char>::empty());
    assert(out@ + Seq::<char>::empty() =~= out@);
    string_of(out.as_slice())
}

/// The fixed `{KEY}` values of processors: the side is `client`; the
/// others come from the installation's paths and version.
pub open spec fn fixed_tokens(mc: Seq<char>, root: Seq<char>, libs: Seq<char>, installer: Seq<char>, jar: Seq<char>) -> Seq<(Seq<char>, Seq<char>)> {
    seq![
        ("SIDE"@, "client"@),
        ("MINECRAFT_VERSION"@, mc),
        ("ROOT"@, root),
        ("LIBRARY_DIR"@, libs),
        ("INSTALLER"@, installer),
        ("MINECRAFT_JAR"@, jar),
    ]
}

/// The fixed `{KEY}` values of processors.
pub fn base_tokens(minecraft_version: &str, root: &str, library_dir: &str, installer: &str, minecraft_jar: &str) -> (r: Vec<(String, String)>)
    ensures
        pairs_view(r@) == fixed_tokens(minecraft_version@, root@, library_dir@, installer@, minecraft_jar@),
{
    let mut t: Vec<(String, String)> = Vec::new();
    t.push(("SIDE".to_owned(), "client".to_owned()));
    t.push(("MINECRAFT_VERSION".to_owned(), minecraft_version.to_owned()));
    t.push(("ROOT".to_owned(), root.to_owned()));
    t.push(("LIBRARY_DIR".to_owned(), library_dir.to_owned()));
    t.push(("INSTALLER".to_owned(), installer.to_owned()));
    t.push(("MINECRAFT_JAR".to_owned(), minecraft_jar.to_owned()));
    assert(pairs_view(t@) =~= fixed_tokens(minecraft_version@, root@, library_dir@, installer@, minecraft_jar@));
    t
}

/// Each fixed processor key stands for its own value: `{SIDE}` is
/// `client`, `{MINECRAFT_VERSION}` the game version, `{ROOT}` the game
/// root, `{LIBRARY_DIR}` the libraries directory, `{INSTALLER}` the
/// installer jar and `{MINECRAFT_JAR}` the client jar.
pub proof fn fixed_token_values(
    mc: Seq<char>,
    root: Seq<char>,
    libs: Seq<char>,
    installer: Seq<char>,
    jar: Seq<char>,
)
    ensures
        ({
            let t = fixed_tokens(mc, root, libs, installer, jar);
            &&& lookup(t, "SIDE"@) == Some("client"@)
            &&& lookup(t, "MINECRAFT_VERSION"@) == Some(mc)
            &&& lookup(t, "ROOT"@) == Some(root)
            &&& lookup(t, "LIBRARY_DIR"@) == Some(libs)
            &&& lookup(t, "INSTALLER"@) == Some(installer)
            &&& lookup(t, "MINECRAFT_JAR"@) == Some(jar)
        }),
{
    reveal_strlit("SIDE");
    reveal_strlit("MINECRAFT_VERSION");
    reveal_strlit("ROOT");
    reveal_strlit("LIBRARY_DIR");
    reveal_strlit("INSTALLER");
    reveal_strlit("MINECRAFT_JAR");
    reveal_with_fuel(lookup, 7);
    assert("SIDE"@.len() == 4 && "ROOT"@.len() == 4 && "SIDE"@[0] != "ROOT"@[0]);
    assert("MINECRAFT_VERSION"@.len() == 17 && "LIBRARY_DIR"@.len() == 11);
    assert("INSTALLER"@.len() == 9 && "MINECRAFT_JAR"@.len() == 13);
    let t = fixed_tokens(mc, root, libs, installer, jar);
    assert(t.drop_first() =~= seq![
        ("MINECRAFT_VERSION"@, mc),
        ("ROOT"@, root),
        ("LIBRARY_DIR"@, libs),
        ("INSTALLER"@, installer),
        ("MINECRAFT_JAR"@, jar),
    ]);
    assert(t.drop_first().drop_first() =~= seq![
        ("ROOT"@, root),
        ("LIBRARY_DIR"@, libs),
        ("INSTALLER"@, installer),
        ("MINECRAFT_JAR"@, jar),
    ]);
    assert(t.drop_first().drop_first().drop_first() =~= seq![
        ("LIBRARY_DIR"@, libs),
        ("INSTALLER"@, installer),
        ("MINECRAFT_JAR"@, jar),
    ]);
    assert(t.drop_first().drop_first().drop_first().drop_first() =~= seq![
        ("INSTALLER"@, installer),
        ("MINECRAFT_JAR"@, jar),
    ]);
    assert(t.drop_first().drop_first().drop_first().drop_first().drop_first() =~= seq![
        ("MINECRAFT_JAR"@, jar),
    ]);
}

} // verus!
