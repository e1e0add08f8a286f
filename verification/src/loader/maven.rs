//! Maven coordinates and the library paths they name.
//!
//! Accepted forms:
//!
//! ```text
//! group:artifact:version
//! group:artifact:version:classifier
//! group:artifact:version@extension
//! group:artifact:version:classifier@extension
//! ```
//!
//! The extension defaults to `jar`. A coordinate names a path in the usual
//! Maven layout.

use vstd::prelude::*;

use crate::text::{
    chars_of, char_vecs_view, find_char, find_from, lemma_find_from_bounds, split_all,
    split_chars, split_once, string_of,
};

verus! {

/// Error of `split_coordinate`: the text is no Maven coordinate.
#[derive(Debug)]
pub struct CoordinateError(pub String);

/// The parts of a Maven coordinate.
#[derive(Debug)]
pub struct MavenCoordinate {
    pub group: String,
    pub artifact: String,
    pub version: String,
    pub classifier: Option<String>,
    pub extension: String,
}

impl Clone for MavenCoordinate {
    fn clone(&self) -> (r: Self)
        ensures
            r == *self,
    {
        MavenCoordinate {
            group: self.group.clone(),
            artifact: self.artifact.clone(),
            version: self.version.clone(),
            classifier: crate::text::clone_opt_string(&self.classifier),
            extension: self.extension.clone(),
        }
    }
}

/// A coordinate by its parts: group, artifact, version, classifier,
/// extension.
pub struct CoordinateView {
    pub group: Seq<char>,
    pub artifact: Seq<char>,
    pub version: Seq<char>,
    pub classifier: Option<Seq<char>>,
    pub extension: Seq<char>,
}

impl View for MavenCoordinate {
    type V = CoordinateView;

    open spec fn view(&self) -> CoordinateView {
        CoordinateView {
            group: self.group@,
            artifact: self.artifact@,
            version: self.version@,
            classifier: match self.classifier {
                Some(c) => Some(c@),
                None => None,
            },
            extension: self.extension@,
        }
    }
}

/// The coordinate that `raw` denotes: the text after the first `@` is the
/// extension (`jar` when there is none); the rest splits at `:` into three
/// or four parts, of which group, artifact and version are not empty.
pub open spec fn coordinate_of(raw: Seq<char>) -> Option<CoordinateView> {
    let (head, ext) = match split_once(raw, '@') {
        Some((h, e)) => (h, e),
        None => (raw, "jar"@),
    };
    let parts = split_all(head, ':');
    if parts.len() == 3 || parts.len() == 4 {
        if parts[0].len() > 0 && parts[1].len() > 0 && parts[2].len() > 0 {
            Some(
                CoordinateView {
                    group: parts[0],
                    artifact: parts[1],
                    version: parts[2],
                    classifier: if parts.len() == 4 {
                        Some(parts[3])
                    } else {
                        None
                    },
                    extension: ext,
                },
            )
        } else {
            None
        }
    } else {
        None
    }
}

/// Splits a Maven coordinate into its parts.
pub fn split_coordinate(raw: &str) -> (r: Result<MavenCoordinate, CoordinateError>)
    ensures
        match r {
            Ok(c) => coordinate_of(raw@) == Some(c@),
            Err(e) => coordinate_of(raw@) is None && e.0@ == "cannot parse Maven coordinate `"@
                + raw@ + "`"@,
        },
{
    let v = chars_of(raw);
    proof {
        lemma_find_from_bounds(v@, seq!['@'], 0, false);
        reveal_strlit("jar");
    }
    let (head, ext): (Vec<char>, String) = match find_char(v.as_slice(), '@', 0) {
        Some(i) => {
            assert(find_from(v@, seq!['@'], 0, false) == Some(i as int));
            let len = v.len();
            assert(i < len);
            let h = crate::text::sub_vec(v.as_slice(), 0, i);
            let e = string_of(&v.as_slice()[i + 1..len]);
            assert(h@ =~= v@.take(i as int));
            assert(e@ =~= v@.skip(i + 1));
            (h, e)
        },
        None => {
            let h = crate::text::sub_vec(v.as_slice(), 0, v.len());
            assert(h@ =~= v@);
            (h, "jar".to_owned())
        },
    };
    let parts = split_chars(head.as_slice(), ':');
    let n = parts.len();
    let ghost pv = char_vecs_view(parts@);
    assert(pv.len() == n);
    if (n == 3 || n == 4) && parts[0].len() > 0 && parts[1].len() > 0 && parts[2].len() > 0 {
        assert(pv[0] == parts@[0]@ && pv[1] == parts@[1]@ && pv[2] == parts@[2]@);
        let classifier = if n == 4 {
            assert(pv[3] == parts@[3]@);
            Some(string_of(parts[3].as_slice()))
        } else {
            None
        };
        Ok(
            MavenCoordinate {
                group: string_of(parts[0].as_slice()),
                artifact: string_of(parts[1].as_slice()),
                version: string_of(parts[2].as_slice()),
                classifier,
                extension: ext,
            },
        )
    } else {
        proof {
            if n == 3 || n == 4 {
                assert(pv[0] == parts@[0]@ && pv[1] == parts@[1]@ && pv[2] == parts@[2]@);
            }
        }
        Err(CoordinateError(crate::text::concat3("cannot parse Maven coordinate `", raw, "`")))
    }
}

/// The text of a coordinate: `group:artifact:version`, then `:classifier`
/// when there is one, then `@extension` when the extension is written out.
pub open spec fn coordinate_text(c: CoordinateView, with_extension: bool) -> Seq<char> {
    c.group + seq![':'] + c.artifact + seq![':'] + c.version + match c.classifier {
        Some(k) => seq![':'] + k,
        None => Seq::empty(),
    } + if with_extension {
        seq!['@'] + c.extension
    } else {
        Seq::empty()
    }
}

/// A coordinate reads back as the text it came from: the text is the
/// coordinate's parts joined by `:`, followed by `@` and the extension when
/// the text holds an `@`; without one the extension is `jar`. Group,
/// artifact, version and classifier hold neither `:` nor `@`.
pub proof fn coordinate_round_trip(raw: Seq<char>)
    requires
        coordinate_of(raw) is Some,
    ensures
        ({
            let c = coordinate_of(raw)->0;
            &&& raw == coordinate_text(c, raw.contains('@'))
            &&& !raw.contains('@') ==> c.extension == "jar"@
            &&& !c.group.contains(':') && !c.group.contains('@')
            &&& !c.artifact.contains(':') && !c.artifact.contains('@')
            &&& !c.version.contains(':') && !c.version.contains('@')
            &&& c.classifier matches Some(k) ==> !k.contains(':') && !k.contains('@')
        }),
{
    let c = coordinate_of(raw)->0;
    crate::text::lemma_find_char(raw, '@');
    let head = match split_once(raw, '@') {
        Some((h, e)) => h,
        None => raw,
    };
    assert(!head.contains('@'));
    crate::text::lemma_split_all_join(head, ':');
    crate::text::lemma_split_all_avoids(head, ':', '@');
    let parts = split_all(head, ':');
    assert(parts[0] == c.group && parts[1] == c.artifact && parts[2] == c.version);
    assert(!parts[0].contains(':') && !parts[1].contains(':') && !parts[2].contains(':'));
    assert(!parts[0].contains('@') && !parts[1].contains('@') && !parts[2].contains('@'));
    let joined = c.group + seq![':'] + c.artifact + seq![':'] + c.version + match c.classifier {
        Some(k) => seq![':'] + k,
        None => Seq::empty(),
    };
    if parts.len() == 3 {
        assert(parts.drop_first().drop_first().len() == 1);
        assert(crate::text::join_char(parts.drop_first().drop_first(), ':') == parts[2]);
        assert(crate::text::join_char(parts.drop_first(), ':') == parts[1] + seq![':'] + parts[2]);
        assert(head =~= joined);
    } else {
        assert(!parts[3].contains(':') && !parts[3].contains('@'));
        let p3 = parts.drop_first().drop_first().drop_first();
        assert(p3.len() == 1);
        assert(crate::text::join_char(p3, ':') == parts[3]);
        assert(crate::text::join_char(parts.drop_first().drop_first(), ':') == parts[2] + seq![':'] + parts[3]);
        assert(crate::text::join_char(parts.drop_first(), ':') == parts[1] + seq![':'] + (parts[2] + seq![
            ':',
        ] + parts[3]));
        assert(head =~= joined);
    }
    match crate::text::find_from(raw, seq!['@'], 0, false) {
        Some(i) => {
            assert(raw.contains('@'));
            assert(raw =~= raw.take(i) + seq!['@'] + raw.skip(i + 1));
        },
        None => {},
    }
}

/// `s` with every `.` turned into `/`.
pub open spec fn dots_to_slashes(s: Seq<char>) -> Seq<char> {
    s.map_values(|c: char| if c == '.' { '/' } else { c })
}

/// The file name of a coordinate: `artifact-version[-classifier].extension`.
pub open spec fn file_name_of(c: CoordinateView) -> Seq<char> {
    c.artifact + "-"@ + c.version + match c.classifier {
        Some(k) => "-"@ + k,
        None => Seq::empty(),
    } + "."@ + c.extension
}

/// The path of a coordinate in the Maven layout, with `/` between parts:
/// the group with its dots as directories, the artifact, the version, and
/// the file name.
pub open spec fn maven_path(c: CoordinateView) -> Seq<char> {
    dots_to_slashes(c.group) + "/"@ + c.artifact + "/"@ + c.version + "/"@ + file_name_of(c)
}

impl MavenCoordinate {
    /// The relative path of the coordinate in a Maven repository, e.g.
    /// `net/neoforged/neoforge/21.1.200/neoforge-21.1.200.jar`.
    pub fn relative_path(&self) -> (r: String)
        ensures
            r@ == maven_path(self@),
    {
        let g = chars_of(self.group.as_str());
        let mut out: Vec<char> = Vec::new();
        let mut i: usize = 0;
        while i < g.len()
            invariant
                g@ == self.group@,
                i <= g@.len(),
                out@ == dots_to_slashes(g@.take(i as int)),
            decreases g@.len() - i,
        {
            let c = g[i];
            out.push(if c == '.' { '/' } else { c });
            assert(out@ =~= dots_to_slashes(g@.take(i + 1)));
            i += 1;
        }
        assert(g@.take(g@.len() as int) =~= g@);
        let mut s = string_of(out.as_slice());
        crate::text::push_str(&mut s, "/");
        crate::text::push_str(&mut s, self.artifact.as_str());
        crate::text::push_str(&mut s, "/");
        crate::text::push_str(&mut s, self.version.as_str());
        crate::text::push_str(&mut s, "/");
        crate::text::push_str(&mut s, self.artifact.as_str());
        crate::text::push_str(&mut s, "-");
        crate::text::push_str(&mut s, self.version.as_str());
        match &self.classifier {
            Some(k) => {
                crate::text::push_str(&mut s, "-");
                crate::text::push_str(&mut s, k.as_str());
            },
            None => {},
        }
        crate::text::push_str(&mut s, ".");
        crate::text::push_str(&mut s, self.extension.as_str());
        proof {
            let cv = self@;
            assert(s@ =~= maven_path(cv));
        }
        s
    }
}

/// The Maven path a coordinate names, or `None` when it is no coordinate.
pub fn relative_path_of(raw: &str) -> (r: Option<String>)
    ensures
        match r {
            Some(p) => coordinate_of(raw@) matches Some(c) && p@ == maven_path(c),
            None => coordinate_of(raw@) is None,
        },
{
    match split_coordinate(raw) {
        Ok(c) => Some(c.relative_path()),
        Err(_) => None,
    }
}

} // verus!
