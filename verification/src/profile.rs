//! Game profiles: the player accounts a game can be launched with.
//!
//! Offline profiles are created here; the other sign-in kinds are named so
//! that they can be chosen, and are refused when a profile is created.

use vstd::prelude::*;

use crate::support::{new_uuid_string, now_utc_string};
use crate::text::{is_blank, trim, trim_string};

verus! {

/// How a profile signs in.
#[derive(PartialEq, Eq, Structural, Clone, Copy, Debug)]
pub enum AuthType {
    Offline,
    Microsoft,
    AuthlibInjector,
}

pub open spec fn auth_name(a: AuthType) -> Seq<char> {
    match a {
        AuthType::Offline => "offline"@,
        AuthType::Microsoft => "microsoft"@,
        AuthType::AuthlibInjector => "authlib-injector"@,
    }
}

impl AuthType {
    /// The kind's name: `offline`, `microsoft` or `authlib-injector`.
    pub fn as_str(&self) -> (s: &'static str)
        ensures
            s@ == auth_name(*self),
    {
        match self {
            AuthType::Offline => "offline",
            AuthType::Microsoft => "microsoft",
            AuthType::AuthlibInjector => "authlib-injector",
        }
    }
}

/// A player account to launch the game with.
pub struct GameProfile {
    pub id: String,
    /// Display name (the player name of an offline profile).
    pub name: String,
    pub auth_type: AuthType,
    /// Player name of an offline profile; account name of the other kinds.
    pub username: Option<String>,
    /// Extra sign-in data of the other kinds, as JSON text.
    pub auth_data: Option<String>,
    pub created_at: String,
}

fn clone_opt(o: &Option<String>) -> (r: Option<String>)
    ensures
        r == *o,
{
    match o {
        Some(s) => Some(s.clone()),
        None => None,
    }
}

impl Clone for GameProfile {
    fn clone(&self) -> (r: Self)
        ensures
            r == *self,
    {
        GameProfile {
            id: self.id.clone(),
            name: self.name.clone(),
            auth_type: self.auth_type,
            username: clone_opt(&self.username),
            auth_data: clone_opt(&self.auth_data),
            created_at: self.created_at.clone(),
        }
    }
}

// ---------------------------------------------------------------------------
// Parsing the sign-in kind
// ---------------------------------------------------------------------------

/// ASCII lower-casing of one character.
pub open spec fn ascii_lower(c: char) -> char {
    if 'A' <= c && c <= 'Z' {
        ((c as u32) + 32) as char
    } else {
        c
    }
}

/// ASCII lower-casing of a text, letter by letter.
pub open spec fn ascii_lowered(s: Seq<char>) -> Seq<char> {
    s.map_values(|c: char| ascii_lower(c))
}

pub open spec fn is_ascii_text(s: Seq<char>) -> bool {
    forall|i: int| 0 <= i < s.len() ==> (#[trigger] s[i] as u32) < 128
}

/// `str::to_lowercase`: the Unicode lower-case mapping of a string.
pub uninterp spec fn unicode_lower(s: Seq<char>) -> Seq<char>;

/// `str::to_lowercase`. The mapping of non-ASCII text is left to the name
/// `unicode_lower`; ASCII text is lower-cased letter by letter.
#[verifier::external_body]
fn to_lowercase(s: &str) -> (r: String)
    ensures
        r@ == unicode_lower(s@),
        is_ascii_text(s@) ==> r@ == ascii_lowered(s@),
{
    s.to_lowercase()
}

/// Error of `parse_auth_type`: the text names no sign-in kind.
#[derive(Debug)]
pub struct UnknownAuthType(pub String);

/// The sign-in kind a lower-cased name denotes.
pub open spec fn auth_of_lower(l: Seq<char>) -> Option<AuthType> {
    if l == "offline"@ {
        Some(AuthType::Offline)
    } else if l == "microsoft"@ {
        Some(AuthType::Microsoft)
    } else if l == "authlib-injector"@ || l == "authlib_injector"@ {
        Some(AuthType::AuthlibInjector)
    } else {
        None
    }
}

/// Reads a sign-in kind without regard to case; `authlib_injector` is
/// accepted beside `authlib-injector`. For ASCII text the case is that of
/// ASCII letters.
pub fn parse_auth_type(s: &str) -> (r: Result<AuthType, UnknownAuthType>)
    ensures
        match r {
            Ok(a) => auth_of_lower(unicode_lower(s@)) == Some(a),
            Err(e) => auth_of_lower(unicode_lower(s@)) is None && e.0@ == s@,
        },
        is_ascii_text(s@) ==> match r {
            Ok(a) => auth_of_lower(ascii_lowered(s@)) == Some(a),
            Err(_) => auth_of_lower(ascii_lowered(s@)) is None,
        },
{
    let l = to_lowercase(s);
    let ls = l.as_str();
    if crate::text::str_eq(ls, "offline") {
        Ok(AuthType::Offline)
    } else if crate::text::str_eq(ls, "microsoft") {
        Ok(AuthType::Microsoft)
    } else if crate::text::str_eq(ls, "authlib-injector") || crate::text::str_eq(
        ls,
        "authlib_injector",
    ) {
        Ok(AuthType::AuthlibInjector)
    } else {
        Err(UnknownAuthType(s.to_owned()))
    }
}

/// Reading back the name of a sign-in kind gives that kind.
pub proof fn auth_name_round_trip(a: AuthType)
    ensures
        is_ascii_text(auth_name(a)),
        ascii_lowered(auth_name(a)) == auth_name(a),
        auth_of_lower(auth_name(a)) == Some(a),
{
    reveal_strlit("offline");
    reveal_strlit("microsoft");
    reveal_strlit("authlib-injector");
    reveal_strlit("authlib_injector");
    let n = auth_name(a);
    assert(n.map_values(|c: char| ascii_lower(c)) =~= n);
}

// ---------------------------------------------------------------------------
// Creating, choosing and removing profiles
// ---------------------------------------------------------------------------

/// Why a profile cannot be created.
#[derive(Debug)]
pub enum CreateProfileError {
    UnknownAuthType(String),
    /// An offline profile needs a player name.
    MissingName,
    /// The sign-in kind is not offered yet.
    Unsupported(AuthType),
}

/// The player name an offline profile gets: the given name trimmed, when
/// anything is left.
pub open spec fn offline_name(username: Option<Seq<char>>) -> Option<Seq<char>> {
    match username {
        Some(u) => if trim(u).len() > 0 {
            Some(trim(u))
        } else {
            None
        },
        None => None,
    }
}

pub open spec fn opt_str_view(o: Option<&str>) -> Option<Seq<char>> {
    match o {
        Some(s) => Some(s@),
        None => None,
    }
}

/// The profile that `create` makes from the request, given its new id and
/// creation time.
pub fn offline_profile(name: &str, id: String, created_at: String) -> (p: GameProfile)
    ensures
        p.id == id,
        p.name@ == name@,
        p.auth_type == AuthType::Offline,
        p.username matches Some(u) && u@ == name@,
        p.auth_data is None,
        p.created_at == created_at,
{
    GameProfile {
        id,
        name: name.to_owned(),
        auth_type: AuthType::Offline,
        username: Some(name.to_owned()),
        auth_data: None,
        created_at,
    }
}

/// What `create` answers for a request whose sign-in kind reads as `kind`.
pub open spec fn create_outcome(
    kind: Option<AuthType>,
    auth_type: Seq<char>,
    username: Option<Seq<char>>,
    r: Result<GameProfile, CreateProfileError>,
) -> bool {
    match kind {
        None => r matches Err(CreateProfileError::UnknownAuthType(s)) && s@ == auth_type,
        Some(AuthType::Offline) => match offline_name(username) {
            None => r matches Err(CreateProfileError::MissingName),
            Some(n) => r matches Ok(p) && p.name@ == n && p.auth_type == AuthType::Offline
                && (p.username matches Some(u) && u@ == n) && p.auth_data is None
                && p.id@.len() == 36,
        },
        Some(a) => r matches Err(CreateProfileError::Unsupported(b)) && b == a,
    }
}

/// Creates a profile (not yet saved): only offline profiles are offered,
/// and they need a non-blank player name, which is trimmed. The id is a new
/// random UUID and the creation time the current UTC time. The sign-in kind
/// is read without regard to case (ASCII case for ASCII text).
pub fn create(auth_type: &str, username: Option<&str>) -> (r: Result<GameProfile, CreateProfileError>)
    ensures
        create_outcome(auth_of_lower(unicode_lower(auth_type@)), auth_type@, opt_str_view(username), r),
        is_ascii_text(auth_type@) ==> create_outcome(
            auth_of_lower(ascii_lowered(auth_type@)),
            auth_type@,
            opt_str_view(username),
            r,
        ),
{
    let parsed = match parse_auth_type(auth_type) {
        Ok(a) => a,
        Err(e) => {
            return Err(CreateProfileError::UnknownAuthType(e.0));
        },
    };
    match parsed {
        AuthType::Offline => {
            let name = match username {
                Some(u) => {
                    if is_blank(u) {
                        return Err(CreateProfileError::MissingName);
                    }
                    trim_string(u)
                },
                None => {
                    return Err(CreateProfileError::MissingName);
                },
            };
            let p = offline_profile(name.as_str(), new_uuid_string(), now_utc_string());
            Ok(p)
        },
        _ => Err(CreateProfileError::Unsupported(parsed)),
    }
}

pub open spec fn profile_ids(ps: Seq<GameProfile>) -> Seq<Seq<char>> {
    Seq::new(ps.len(), |i: int| ps[i].id@)
}

/// The profiles of `ps` whose id is not `id`, in order.
pub open spec fn without_id(ps: Seq<GameProfile>, id: Seq<char>) -> Seq<GameProfile>
    decreases ps.len(),
{
    if ps.len() == 0 {
        Seq::empty()
    } else if ps.last().id@ == id {
        without_id(ps.drop_last(), id)
    } else {
        without_id(ps.drop_last(), id).push(ps.last())
    }
}

/// Error of `remove_profile`: no profile has the id.
#[derive(Debug)]
pub struct ProfileNotFound(pub String);

/// Removes every profile with the id; fails when there is none.
pub fn remove_profile(profiles: Vec<GameProfile>, id: &str) -> (r: Result<Vec<GameProfile>, ProfileNotFound>)
    ensures
        match r {
            Ok(kept) => kept@ == without_id(profiles@, id@) && profile_ids(profiles@).contains(id@),
            Err(e) => !profile_ids(profiles@).contains(id@) && e.0@ == id@,
        },
{
    let ghost all = profiles@;
    let mut kept: Vec<GameProfile> = Vec::new();
    let mut found = false;
    for p in it: profiles
        invariant
            it.seq() == all,
            kept@ == without_id(all.take(it.index() as int), id@),
            found == profile_ids(all.take(it.index() as int)).contains(id@),
    {
        let ghost k = it.index() as int;
        assert(all.take(k + 1).drop_last() =~= all.take(k));
        assert(profile_ids(all.take(k + 1)) =~= profile_ids(all.take(k)).push(p.id@));
        proof {
            vstd::seq_lib::lemma_seq_contains_after_push(profile_ids(all.take(k)), p.id@, id@);
        }
        if crate::text::str_eq(p.id.as_str(), id) {
            found = true;
        } else {
            kept.push(p);
        }
    }
    assert(all.take(all.len() as int) =~= all);
    if found {
        Ok(kept)
    } else {
        Err(ProfileNotFound(id.to_owned()))
    }
}

/// The first profile with the id, if any.
pub fn find_profile(profiles: &[GameProfile], id: &str) -> (r: Option<GameProfile>)
    ensures
        match r {
            Some(p) => exists|i: int|
                0 <= i < profiles@.len() && profiles@[i] == p && p.id@ == id@ && forall|j: int|
                    0 <= j < i ==> profiles@[j].id@ != id@,
            None => forall|i: int| 0 <= i < profiles@.len() ==> profiles@[i].id@ != id@,
        },
{
    let mut i: usize = 0;
    while i < profiles.len()
        invariant
            i <= profiles@.len(),
            forall|j: int| 0 <= j < i ==> profiles@[j].id@ != id@,
        decreases profiles@.len() - i,
    {
        if crate::text::str_eq(profiles[i].id.as_str(), id) {
            return Some(profiles[i].clone());
        }
        i += 1;
    }
    None
}

/// The profile made current at start-up: the default one when it is set
/// and exists, else the first profile, else none.
pub fn choose_current(profiles: &[GameProfile], default_id: Option<&str>) -> (r: Option<GameProfile>)
    ensures
        match r {
            Some(p) => (default_id matches Some(d) && p.id@ == d@ && exists|i: int|
                0 <= i < profiles@.len() && profiles@[i] == p && forall|j: int|
                    0 <= j < i ==> profiles@[j].id@ != d@) || (p == profiles@[0] && match default_id {
                Some(d) => forall|i: int| 0 <= i < profiles@.len() ==> profiles@[i].id@ != d@,
                None => true,
            }),
            None => profiles@.len() == 0,
        },
{
    let found = match default_id {
        Some(d) => find_profile(profiles, d),
        None => None,
    };
    match found {
        Some(p) => Some(p),
        None => {
            if profiles.len() > 0 {
                Some(profiles[0].clone())
            } else {
                None
            }
        },
    }
}

/// The default profile id after the profile `removed` is deleted: cleared
/// when it named that profile.
pub fn default_after_removal(default_id: Option<String>, removed: &str) -> (r: Option<String>)
    ensures
        match default_id {
            Some(d) => if d@ == removed@ {
                r is None
            } else {
                r == Some(d)
            },
            None => r is None,
        },
{
    match default_id {
        Some(d) => {
            if crate::text::str_eq(d.as_str(), removed) {
                None
            } else {
                Some(d)
            }
        },
        None => None,
    }
}

} // verus!
