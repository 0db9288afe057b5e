//! Server profiles and the operations on a list of them that the profile stores
//! and commands perform: lookup by id or label, replacement, removal, editing and
//! the merge of an imported list.

use vstd::prelude::*;
use vstd::string::*;
use crate::text::{lowercase_of, to_lowercase, trim_text, trimmed};

verus! {

/// A server profile stored by the user.
#[derive(Debug)]
pub struct Profile {
    pub id: String,
    pub label: String,
    pub host: String,
    pub port: u16,
}

/// A profile as plain values.
pub struct ProfileView {
    pub id: Seq<char>,
    pub label: Seq<char>,
    pub host: Seq<char>,
    pub port: u16,
}

impl View for Profile {
    type V = ProfileView;

    open spec fn view(&self) -> ProfileView {
        ProfileView { id: self.id@, label: self.label@, host: self.host@, port: self.port }
    }
}

impl Clone for Profile {
    fn clone(&self) -> (p: Self)
        ensures
            p@ == self@,
    {
        Profile {
            id: self.id.clone(),
            label: self.label.clone(),
            host: self.host.clone(),
            port: self.port,
        }
    }
}

/// Why a profile operation failed.
#[derive(Clone, Copy, Debug, PartialEq, Eq, Structural)]
pub enum ProfileError {
    /// No profile has the id (or label) asked for.
    NotFound,
    /// The operating system could not supply random bytes for a new profile id.
    RandomUnavailable,
}

/// Whether a character is a lowercase hexadecimal digit.
pub open spec fn is_lower_hex(c: char) -> bool {
    (48 <= c as int <= 57) || (97 <= c as int <= 102)
}

/// Whether a text is a version 4 UUID in lowercase hyphenated form:
/// `xxxxxxxx-xxxx-4xxx-yxxx-xxxxxxxxxxxx` with `y` one of `8`, `9`, `a`, `b`.
pub open spec fn is_uuid_v4_text(s: Seq<char>) -> bool {
    &&& s.len() == 36
    &&& forall|i: int|
        0 <= i < 36 ==> if i == 8 || i == 13 || i == 18 || i == 23 {
            #[trigger] s[i] == '-'
        } else {
            is_lower_hex(s[i])
        }
    &&& s[14] == '4'
    &&& (s[19] == '8' || s[19] == '9' || s[19] == 'a' || s[19] == 'b')
}

#[verifier::external_type_specification]
#[verifier::external_body]
pub struct ExRandomError(getrandom::Error);

/// Fills `buf` with bytes from the operating system's random source
/// (`getrandom::fill`). The bytes are random, so nothing is stated of them; the
/// call fails when the source cannot supply them.
#[verifier::external_body]
fn fill_random(buf: &mut [u8; 16]) -> (r: Result<(), getrandom::Error>) {
    getrandom::fill(buf)
}

/// The lowercase hexadecimal digit of `n < 16`.
pub open spec fn hex_digit(n: int) -> char {
    if n < 10 {
        (48 + n) as char
    } else {
        (87 + n) as char
    }
}

/// The two lowercase hexadecimal digits of a byte, high nibble first.
pub open spec fn hex_byte(b: u8) -> Seq<char> {
    seq![hex_digit(b as int / 16), hex_digit(b as int % 16)]
}

/// The hexadecimal digits of a byte sequence.
pub open spec fn hex_bytes(b: Seq<u8>) -> Seq<char>
    decreases b.len(),
{
    if b.len() == 0 {
        Seq::<char>::empty()
    } else {
        hex_byte(b[0]) + hex_bytes(b.drop_first())
    }
}

/// Random bytes with the version (4) and variant (RFC 4122) bits set.
pub open spec fn v4_bytes(b: Seq<u8>) -> Seq<u8> {
    b.update(6, (b[6] & 0x0fu8) | 0x40u8).update(8, (b[8] & 0x3fu8) | 0x80u8)
}

/// The hyphenated lowercase text of the version 4 UUID built from 16 random bytes.
pub open spec fn uuid_v4_text(b: Seq<u8>) -> Seq<char> {
    let v = v4_bytes(b);
    hex_bytes(v.subrange(0, 4)) + seq!['-'] + hex_bytes(v.subrange(4, 6)) + seq!['-'] + hex_bytes(
        v.subrange(6, 8),
    ) + seq!['-'] + hex_bytes(v.subrange(8, 10)) + seq!['-'] + hex_bytes(v.subrange(10, 16))
}

/// The text of the version 4 UUID made from `random_bytes`
/// (`uuid::Builder::from_random_bytes`, rendered by `to_string`).
#[verifier::external_body]
fn v4_uuid_text(random_bytes: [u8; 16]) -> (s: String)
    ensures
        s@ == uuid_v4_text(random_bytes@),
{
    uuid::Builder::from_random_bytes(random_bytes).into_uuid().to_string()
}

proof fn lemma_hex_bytes(b: Seq<u8>)
    ensures
        hex_bytes(b).len() == 2 * b.len(),
        forall|i: int| 0 <= i < hex_bytes(b).len() ==> is_lower_hex(#[trigger] hex_bytes(b)[i]),
        b.len() > 0 ==> hex_bytes(b)[0] == hex_digit(b[0] as int / 16),
    decreases b.len(),
{
    if b.len() > 0 {
        lemma_hex_bytes(b.drop_first());
        let h = hex_byte(b[0]);
        let t = hex_bytes(b.drop_first());
        assert forall|i: int| 0 <= i < hex_bytes(b).len() implies is_lower_hex(
            #[trigger] hex_bytes(b)[i],
        ) by {
            if i >= 2 {
                assert(hex_bytes(b)[i] == t[i - 2]);
            }
        }
    }
}

/// The text made from any 16 random bytes is a version 4 UUID in lowercase
/// hyphenated form.
pub proof fn lemma_uuid_v4_text_shape(b: Seq<u8>)
    requires
        b.len() == 16,
    ensures
        is_uuid_v4_text(uuid_v4_text(b)),
{
    let v = v4_bytes(b);
    let p0 = hex_bytes(v.subrange(0, 4));
    let p1 = hex_bytes(v.subrange(4, 6));
    let p2 = hex_bytes(v.subrange(6, 8));
    let p3 = hex_bytes(v.subrange(8, 10));
    let p4 = hex_bytes(v.subrange(10, 16));
    lemma_hex_bytes(v.subrange(0, 4));
    lemma_hex_bytes(v.subrange(4, 6));
    lemma_hex_bytes(v.subrange(6, 8));
    lemma_hex_bytes(v.subrange(8, 10));
    lemma_hex_bytes(v.subrange(10, 16));
    let s = uuid_v4_text(b);
    assert forall|i: int| 0 <= i < 36 implies if i == 8 || i == 13 || i == 18 || i == 23 {
        #[trigger] s[i] == '-'
    } else {
        is_lower_hex(s[i])
    } by {
        if i < 8 {
            assert(s[i] == p0[i]);
        } else if 8 < i < 13 {
            assert(s[i] == p1[i - 9]);
        } else if 13 < i < 18 {
            assert(s[i] == p2[i - 14]);
        } else if 18 < i < 23 {
            assert(s[i] == p3[i - 19]);
        } else if 23 < i {
            assert(s[i] == p4[i - 24]);
        }
    }
    let x6 = b[6];
    let x8 = b[8];
    assert(((x6 & 0x0fu8) | 0x40u8) / 16 == 4) by (bit_vector);
    assert(8 <= ((x8 & 0x3fu8) | 0x80u8) / 16 <= 11) by (bit_vector);
    assert(s[14] == p2[0]);
    assert(s[19] == p3[0]);
    assert(v.subrange(6, 8)[0] == v[6]);
    assert(v.subrange(8, 10)[0] == v[8]);
}

/// The profile that the random bytes `random_bytes` give for a label, host and
/// port: its id is the version 4 UUID made from the bytes; label and host are
/// trimmed of white space.
pub fn profile_from_random(random_bytes: [u8; 16], label: &str, host: &str, port: u16) -> (p:
    Profile)
    ensures
        p.id@ == uuid_v4_text(random_bytes@),
        p.label@ == trimmed(label@),
        p.host@ == trimmed(host@),
        p.port == port,
{
    Profile { id: v4_uuid_text(random_bytes), label: trim_text(label), host: trim_text(host), port }
}

impl Profile {
    /// A new profile with a fresh random id; label and host are trimmed of white
    /// space. Fails with `RandomUnavailable` when the operating system cannot
    /// supply random bytes for the id.
    pub fn new(label: &str, host: &str, port: u16) -> (r: Result<Profile, ProfileError>)
        ensures
            match r {
                Ok(p) => {
                    &&& exists|b: Seq<u8>| b.len() == 16 && p.id@ == #[trigger] uuid_v4_text(b)
                    &&& is_uuid_v4_text(p.id@)
                    &&& p.label@ == trimmed(label@)
                    &&& p.host@ == trimmed(host@)
                    &&& p.port == port
                },
                Err(e) => e == ProfileError::RandomUnavailable,
            },
    {
        let mut random_bytes = [0u8; 16];
        match fill_random(&mut random_bytes) {
            Ok(()) => {},
            Err(_) => {
                return Err(ProfileError::RandomUnavailable);
            },
        }
        let p = profile_from_random(random_bytes, label, host, port);
        proof {
            lemma_uuid_v4_text_shape(random_bytes@);
            assert(random_bytes@.len() == 16);
        }
        Ok(p)
    }
}

/// The plain values of a list of profiles.
pub open spec fn views(ps: Seq<Profile>) -> Seq<ProfileView> {
    ps.map_values(|p: Profile| p@)
}

/// The index of the first profile that satisfies `f`.
pub open spec fn first_index(ps: Seq<ProfileView>, f: spec_fn(ProfileView) -> bool) -> Option<int>
    decreases ps.len(),
{
    if ps.len() == 0 {
        None
    } else if f(ps[0]) {
        Some(0)
    } else {
        match first_index(ps.drop_first(), f) {
            Some(i) => Some(i + 1),
            None => None,
        }
    }
}

/// Whether a profile has the id.
pub open spec fn id_is(id: Seq<char>) -> spec_fn(ProfileView) -> bool {
    |p: ProfileView| p.id == id
}

/// Whether a profile has the label.
pub open spec fn label_is(label: Seq<char>) -> spec_fn(ProfileView) -> bool {
    |p: ProfileView| p.label == label
}

/// The first profile with the id.
pub open spec fn profile_with_id(ps: Seq<ProfileView>, id: Seq<char>) -> Option<ProfileView> {
    match first_index(ps, id_is(id)) {
        Some(i) => Some(ps[i]),
        None => None,
    }
}

/// The profiles whose id differs from `id`, in order.
pub open spec fn without_id(ps: Seq<ProfileView>, id: Seq<char>) -> Seq<ProfileView>
    decreases ps.len(),
{
    if ps.len() == 0 {
        ps
    } else {
        let rest = without_id(ps.drop_last(), id);
        if ps.last().id == id {
            rest
        } else {
            rest.push(ps.last())
        }
    }
}

/// The profile found for an id or label: the first with that id, else the first
/// with that label.
pub open spec fn profile_with_id_or_label(ps: Seq<ProfileView>, key: Seq<char>) -> Option<
    ProfileView,
> {
    match first_index(ps, id_is(key)) {
        Some(i) => Some(ps[i]),
        None => match first_index(ps, label_is(key)) {
            Some(i) => Some(ps[i]),
            None => None,
        },
    }
}

/// A profile after an edit of its label, host and port; its id stays.
pub open spec fn edited(p: ProfileView, label: Seq<char>, host: Seq<char>, port: u16) -> ProfileView {
    ProfileView { id: p.id, label: trimmed(label), host: trimmed(host), port }
}

/// Whether some profile's label equals `label` once both are lowercased.
pub open spec fn label_taken(ps: Seq<ProfileView>, label: Seq<char>) -> bool {
    exists|j: int| 0 <= j < ps.len() && lowercase_of(#[trigger] ps[j].label) == lowercase_of(label)
}

/// `existing` followed by each imported profile whose label, lowercased, matches
/// none of those already there (earlier imports included).
pub open spec fn merged(existing: Seq<ProfileView>, imported: Seq<ProfileView>) -> Seq<ProfileView>
    decreases imported.len(),
{
    if imported.len() == 0 {
        existing
    } else {
        let next = if label_taken(existing, imported[0].label) {
            existing
        } else {
            existing.push(imported[0])
        };
        merged(next, imported.drop_first())
    }
}

/// Whether no two profiles have labels equal once lowercased.
pub open spec fn labels_distinct(ps: Seq<ProfileView>) -> bool {
    forall|i: int, j: int|
        0 <= i < j < ps.len() ==> lowercase_of(#[trigger] ps[i].label) != lowercase_of(
            #[trigger] ps[j].label,
        )
}

/// `first_index` is the least index that satisfies the predicate.
pub proof fn lemma_first_index(ps: Seq<ProfileView>, f: spec_fn(ProfileView) -> bool)
    ensures
        match first_index(ps, f) {
            Some(i) => 0 <= i < ps.len() && f(ps[i]) && forall|j: int| 0 <= j < i ==> !f(#[trigger] ps[j]),
            None => forall|j: int| 0 <= j < ps.len() ==> !f(#[trigger] ps[j]),
        },
    decreases ps.len(),
{
    if ps.len() > 0 {
        let rest = ps.drop_first();
        lemma_first_index(rest, f);
        if !f(ps[0]) {
            match first_index(rest, f) {
                Some(i) => {
                    assert forall|j: int| 0 <= j < i + 1 implies !f(#[trigger] ps[j]) by {
                        if j > 0 {
                            assert(ps[j] == rest[j - 1]);
                        }
                    }
                },
                None => {
                    assert forall|j: int| 0 <= j < ps.len() implies !f(#[trigger] ps[j]) by {
                        if j > 0 {
                            assert(ps[j] == rest[j - 1]);
                        }
                    }
                },
            }
        }
    }
}

/// The least index that satisfies a predicate is what `first_index` gives.
pub proof fn lemma_first_index_at(ps: Seq<ProfileView>, f: spec_fn(ProfileView) -> bool, i: int)
    requires
        0 <= i <= ps.len(),
        forall|j: int| 0 <= j < i ==> !f(#[trigger] ps[j]),
        i < ps.len() ==> f(ps[i]),
    ensures
        first_index(ps, f) == (if i < ps.len() {
            Some(i)
        } else {
            None::<int>
        }),
{
    lemma_first_index(ps, f);
    match first_index(ps, f) {
        Some(k) => {
            if k < i {
                assert(!f(ps[k]));
            } else if k > i {
                assert(!f(ps[i]));
            }
        },
        None => {
            if i < ps.len() {
                assert(!f(ps[i]));
            }
        },
    }
}

/// The index of the first profile with the id.
fn find_by_id(profiles: &[Profile], id: &str) -> (r: Option<usize>)
    ensures
        match r {
            Some(i) => first_index(views(profiles@), id_is(id@)) == Some(i as int),
            None => first_index(views(profiles@), id_is(id@)) is None,
        },
{
    let key = String::from_str(id);
    let ghost ps = views(profiles@);
    let mut i: usize = 0;
    while i < profiles.len()
        invariant
            key@ == id@,
            ps == views(profiles@),
            0 <= i <= profiles@.len(),
            forall|j: int| 0 <= j < i ==> !id_is(id@)(#[trigger] ps[j]),
        decreases profiles@.len() - i,
    {
        if profiles[i].id == key {
            proof {
                lemma_first_index_at(ps, id_is(id@), i as int);
            }
            return Some(i);
        }
        i += 1;
    }
    proof {
        lemma_first_index_at(ps, id_is(id@), i as int);
    }
    None
}

/// The index of the first profile with the label.
fn find_by_label(profiles: &[Profile], label: &str) -> (r: Option<usize>)
    ensures
        match r {
            Some(i) => first_index(views(profiles@), label_is(label@)) == Some(i as int),
            None => first_index(views(profiles@), label_is(label@)) is None,
        },
{
    let key = String::from_str(label);
    let ghost ps = views(profiles@);
    let mut i: usize = 0;
    while i < profiles.len()
        invariant
            key@ == label@,
            ps == views(profiles@),
            0 <= i <= profiles@.len(),
            forall|j: int| 0 <= j < i ==> !label_is(label@)(#[trigger] ps[j]),
        decreases profiles@.len() - i,
    {
        if profiles[i].label == key {
            proof {
                lemma_first_index_at(ps, label_is(label@), i as int);
            }
            return Some(i);
        }
        i += 1;
    }
    proof {
        lemma_first_index_at(ps, label_is(label@), i as int);
    }
    None
}

/// The first profile with the id, or `NotFound`.
pub fn get_profile(profiles: &[Profile], id: &str) -> (r: Result<Profile, ProfileError>)
    ensures
        match profile_with_id(views(profiles@), id@) {
            Some(p) => r is Ok && r->Ok_0@ == p,
            None => r == Err::<Profile, ProfileError>(ProfileError::NotFound),
        },
{
    proof {
        lemma_first_index(views(profiles@), id_is(id@));
    }
    match find_by_id(profiles, id) {
        Some(i) => Ok(profiles[i].clone()),
        None => Err(ProfileError::NotFound),
    }
}

/// The profile with the id `id_or_label`, else the first with that label, or `NotFound`.
pub fn find_profile(profiles: &[Profile], id_or_label: &str) -> (r: Result<Profile, ProfileError>)
    ensures
        match profile_with_id_or_label(views(profiles@), id_or_label@) {
            Some(p) => r is Ok && r->Ok_0@ == p,
            None => r == Err::<Profile, ProfileError>(ProfileError::NotFound),
        },
{
    proof {
        lemma_first_index(views(profiles@), id_is(id_or_label@));
        lemma_first_index(views(profiles@), label_is(id_or_label@));
    }
    match find_by_id(profiles, id_or_label) {
        Some(i) => Ok(profiles[i].clone()),
        None => match find_by_label(profiles, id_or_label) {
            Some(i) => Ok(profiles[i].clone()),
            None => Err(ProfileError::NotFound),
        },
    }
}

/// Replaces the first profile that has the id of `profile` by a copy of it; `NotFound`,
/// with the list unchanged, when no profile has that id.
pub fn replace_profile(profiles: &mut Vec<Profile>, profile: &Profile) -> (r: Result<(), ProfileError>)
    ensures
        match first_index(views(old(profiles)@), id_is(profile.id@)) {
            Some(i) => r is Ok && views(final(profiles)@) == views(old(profiles)@).update(i, profile@),
            None => r == Err::<(), ProfileError>(ProfileError::NotFound) && final(profiles)@ == old(
                profiles,
            )@,
        },
{
    proof {
        lemma_first_index(views(profiles@), id_is(profile.id@));
    }
    match find_by_id(profiles.as_slice(), profile.id.as_str()) {
        Some(i) => {
            profiles.set(i, profile.clone());
            assert(views(profiles@) =~= views(old(profiles)@).update(i as int, profile@));
            Ok(())
        },
        None => Err(ProfileError::NotFound),
    }
}

/// Sets label (trimmed), host (trimmed) and port of the first profile with the id
/// and returns a copy of it; `NotFound`, with the list unchanged, when there is none.
pub fn edit_profile(profiles: &mut Vec<Profile>, id: &str, label: &str, host: &str, port: u16) -> (r:
    Result<Profile, ProfileError>)
    ensures
        match first_index(views(old(profiles)@), id_is(id@)) {
            Some(i) => {
                let p = edited(views(old(profiles)@)[i], label@, host@, port);
                &&& r is Ok
                &&& r->Ok_0@ == p
                &&& views(final(profiles)@) == views(old(profiles)@).update(i, p)
            },
            None => r == Err::<Profile, ProfileError>(ProfileError::NotFound) && final(profiles)@
                == old(profiles)@,
        },
{
    proof {
        lemma_first_index(views(profiles@), id_is(id@));
    }
    match find_by_id(profiles.as_slice(), id) {
        Some(i) => {
            let p = Profile {
                id: profiles[i].id.clone(),
                label: trim_text(label),
                host: trim_text(host),
                port,
            };
            let copy = p.clone();
            profiles.set(i, p);
            assert(views(profiles@) =~= views(old(profiles)@).update(
                i as int,
                edited(views(old(profiles)@)[i as int], label@, host@, port),
            ));
            Ok(copy)
        },
        None => Err(ProfileError::NotFound),
    }
}

proof fn lemma_without_id_len(ps: Seq<ProfileView>, id: Seq<char>)
    ensures
        without_id(ps, id).len() <= ps.len(),
        without_id(ps, id).len() == ps.len() <==> first_index(ps, id_is(id)) is None,
        first_index(ps, id_is(id)) is None ==> without_id(ps, id) == ps,
    decreases ps.len(),
{
    lemma_first_index(ps, id_is(id));
    if ps.len() > 0 {
        let init = ps.drop_last();
        lemma_without_id_len(init, id);
        lemma_first_index(init, id_is(id));
        if first_index(ps, id_is(id)) is None {
            assert(forall|j: int| 0 <= j < init.len() ==> init[j] == ps[j]);
            assert(first_index(init, id_is(id)) is None) by {
                if first_index(init, id_is(id)) is Some {
                    let k = first_index(init, id_is(id))->0;
                    assert(id_is(id)(ps[k]));
                }
            }
            assert(!id_is(id)(ps[ps.len() - 1]));
            assert(init.push(ps.last()) =~= ps);
        } else {
            if first_index(init, id_is(id)) is None {
                assert forall|j: int| 0 <= j < ps.len() - 1 implies !id_is(id)(#[trigger] ps[j]) by {
                    assert(init[j] == ps[j]);
                }
                let k = first_index(ps, id_is(id))->0;
                assert(k == ps.len() - 1);
            }
        }
    }
}

/// Removes every profile with the id; `NotFound`, with the list unchanged, when
/// there is none.
pub fn remove_profile(profiles: &mut Vec<Profile>, id: &str) -> (r: Result<(), ProfileError>)
    ensures
        views(final(profiles)@) == without_id(views(old(profiles)@), id@),
        r is Ok <==> first_index(views(old(profiles)@), id_is(id@)) is Some,
        r is Err ==> r == Err::<(), ProfileError>(ProfileError::NotFound) && views(final(profiles)@)
            == views(old(profiles)@),
{
    let key = String::from_str(id);
    let ghost ps = views(old(profiles)@);
    let mut kept: Vec<Profile> = Vec::new();
    let mut i: usize = 0;
    let n = profiles.len();
    while i < n
        invariant
            key@ == id@,
            n == profiles@.len(),
            ps == views(profiles@),
            i <= n,
            views(kept@) == without_id(ps.take(i as int), id@),
        decreases n - i,
    {
        assert(ps.take(i + 1).drop_last() =~= ps.take(i as int));
        if profiles[i].id != key {
            kept.push(profiles[i].clone());
            assert(views(kept@) =~= without_id(ps.take(i + 1), id@));
        } else {
            assert(views(kept@) =~= without_id(ps.take(i + 1), id@));
        }
        i += 1;
    }
    assert(ps.take(n as int) =~= ps);
    proof {
        lemma_without_id_len(ps, id@);
    }
    let removed_none = kept.len() == n;
    *profiles = kept;
    if removed_none {
        Err(ProfileError::NotFound)
    } else {
        Ok(())
    }
}

/// Whether some profile's label matches `label` once both are lowercased.
fn is_label_taken(existing: &[Profile], label: &String) -> (b: bool)
    ensures
        b == label_taken(views(existing@), label@),
{
    let ghost ps = views(existing@);
    let target = to_lowercase(label.as_str());
    let mut j: usize = 0;
    while j < existing.len()
        invariant
            ps == views(existing@),
            target@ == lowercase_of(label@),
            j <= existing@.len(),
            forall|k: int| 0 <= k < j ==> lowercase_of(#[trigger] ps[k].label) != lowercase_of(label@),
        decreases existing@.len() - j,
    {
        let lowered = to_lowercase(existing[j].label.as_str());
        if lowered == target {
            assert(lowercase_of(ps[j as int].label) == lowercase_of(label@));
            return true;
        }
        j += 1;
    }
    false
}

/// Appends each imported profile whose label, lowercased, matches none already in
/// the list (profiles appended earlier in the same merge included); returns how
/// many profiles were imported, skipped ones counted.
pub fn merge_profiles(existing: &mut Vec<Profile>, imported: Vec<Profile>) -> (count: usize)
    ensures
        views(final(existing)@) == merged(views(old(existing)@), views(imported@)),
        count == imported@.len(),
{
    let ghost target = merged(views(existing@), views(imported@));
    let ghost ins = views(imported@);
    let n = imported.len();
    let mut i: usize = 0;
    assert(ins.skip(0) =~= ins);
    while i < n
        invariant
            n == imported@.len(),
            ins == views(imported@),
            i <= n,
            merged(views(existing@), ins.skip(i as int)) == target,
        decreases n - i,
    {
        let ghost rest = ins.skip(i as int);
        assert(rest.drop_first() =~= ins.skip(i + 1));
        assert(rest[0] == ins[i as int]);
        let ghost before = views(existing@);
        if !is_label_taken(existing.as_slice(), &imported[i].label) {
            existing.push(imported[i].clone());
            assert(views(existing@) =~= before.push(ins[i as int]));
        }
        i += 1;
    }
    assert(ins.skip(n as int) =~= Seq::<ProfileView>::empty());
    n
}

/// After a successful replacement, looking the id up gives the new profile.
pub proof fn lemma_get_after_replace(ps: Seq<ProfileView>, p: ProfileView)
    requires
        first_index(ps, id_is(p.id)) is Some,
    ensures
        profile_with_id(ps.update(first_index(ps, id_is(p.id))->0, p), p.id) == Some(p),
{
    lemma_first_index(ps, id_is(p.id));
    let i = first_index(ps, id_is(p.id))->0;
    let qs = ps.update(i, p);
    assert forall|j: int| 0 <= j < i implies !id_is(p.id)(#[trigger] qs[j]) by {
        assert(qs[j] == ps[j]);
        assert(!id_is(p.id)(ps[j]));
    }
    lemma_first_index_at(qs, id_is(p.id), i);
}

/// After a removal no profile has the id, and the others stay, in order.
pub proof fn lemma_get_after_remove(ps: Seq<ProfileView>, id: Seq<char>)
    ensures
        profile_with_id(without_id(ps, id), id) is None,
        forall|j: int| 0 <= j < without_id(ps, id).len() ==> #[trigger] without_id(ps, id)[j].id != id,
        without_id(ps, id) == ps.filter(|q: ProfileView| q.id != id),
    decreases ps.len(),
{
    reveal(Seq::filter);
    if ps.len() > 0 {
        lemma_get_after_remove(ps.drop_last(), id);
    }
    lemma_first_index(without_id(ps, id), id_is(id));
}

proof fn lemma_merged_extends(existing: Seq<ProfileView>, imported: Seq<ProfileView>)
    ensures
        merged(existing, imported).len() >= existing.len(),
        merged(existing, imported).len() <= existing.len() + imported.len(),
        merged(existing, imported).take(existing.len() as int) == existing,
    decreases imported.len(),
{
    if imported.len() > 0 {
        let next = if label_taken(existing, imported[0].label) {
            existing
        } else {
            existing.push(imported[0])
        };
        lemma_merged_extends(next, imported.drop_first());
        assert(next.take(existing.len() as int) =~= existing);
        assert(merged(existing, imported).take(existing.len() as int) =~= merged(
            existing,
            imported,
        ).take(next.len() as int).take(existing.len() as int));
    } else {
        assert(existing.take(existing.len() as int) =~= existing);
    }
}

proof fn lemma_label_taken_grows(small: Seq<ProfileView>, big: Seq<ProfileView>, label: Seq<char>)
    requires
        big.len() >= small.len(),
        big.take(small.len() as int) == small,
        label_taken(small, label),
    ensures
        label_taken(big, label),
{
    let j = choose|j: int|
        0 <= j < small.len() && lowercase_of(#[trigger] small[j].label) == lowercase_of(label);
    assert(big[j] == big.take(small.len() as int)[j]);
}

/// Every imported label is, after the merge, taken in the list.
proof fn lemma_merged_covers(existing: Seq<ProfileView>, imported: Seq<ProfileView>)
    ensures
        forall|k: int|
            0 <= k < imported.len() ==> label_taken(merged(existing, imported), #[trigger] imported[k].label),
    decreases imported.len(),
{
    if imported.len() > 0 {
        let next = if label_taken(existing, imported[0].label) {
            existing
        } else {
            existing.push(imported[0])
        };
        let rest = imported.drop_first();
        lemma_merged_covers(next, rest);
        lemma_merged_extends(next, rest);
        assert(label_taken(next, imported[0].label)) by {
            if !label_taken(existing, imported[0].label) {
                assert(next[existing.len() as int] == imported[0]);
            }
        }
        lemma_label_taken_grows(next, merged(next, rest), imported[0].label);
        assert forall|k: int| 0 <= k < imported.len() implies label_taken(
            merged(existing, imported),
            #[trigger] imported[k].label,
        ) by {
            if k > 0 {
                assert(imported[k] == rest[k - 1]);
            }
        }
    }
}

/// Merging profiles whose labels are all taken leaves the list unchanged.
proof fn lemma_merged_nothing_new(existing: Seq<ProfileView>, imported: Seq<ProfileView>)
    requires
        forall|k: int| 0 <= k < imported.len() ==> label_taken(existing, #[trigger] imported[k].label),
    ensures
        merged(existing, imported) == existing,
    decreases imported.len(),
{
    if imported.len() > 0 {
        let rest = imported.drop_first();
        assert(label_taken(existing, imported[0].label));
        assert forall|k: int| 0 <= k < rest.len() implies label_taken(existing, #[trigger] rest[k].label) by {
            assert(rest[k] == imported[k + 1]);
        }
        lemma_merged_nothing_new(existing, rest);
    }
}

/// Importing the same profiles a second time adds nothing.
pub proof fn lemma_merge_idempotent(existing: Seq<ProfileView>, imported: Seq<ProfileView>)
    ensures
        merged(merged(existing, imported), imported) == merged(existing, imported),
{
    lemma_merged_covers(existing, imported);
    lemma_merged_nothing_new(merged(existing, imported), imported);
}

/// A merge keeps the existing profiles, in front and unchanged, and adds at most
/// the imported ones.
pub proof fn lemma_merge_keeps_existing(existing: Seq<ProfileView>, imported: Seq<ProfileView>)
    ensures
        merged(existing, imported).take(existing.len() as int) == existing,
        existing.len() <= merged(existing, imported).len() <= existing.len() + imported.len(),
{
    lemma_merged_extends(existing, imported);
}

/// Labels distinct up to case stay distinct through a merge.
pub proof fn lemma_merge_keeps_labels_distinct(existing: Seq<ProfileView>, imported: Seq<ProfileView>)
    requires
        labels_distinct(existing),
    ensures
        labels_distinct(merged(existing, imported)),
    decreases imported.len(),
{
    if imported.len() > 0 {
        let next = if label_taken(existing, imported[0].label) {
            existing
        } else {
            existing.push(imported[0])
        };
        assert(labels_distinct(next)) by {
            if !label_taken(existing, imported[0].label) {
                assert forall|i: int, j: int| 0 <= i < j < next.len() implies lowercase_of(
                    #[trigger] next[i].label,
                ) != lowercase_of(#[trigger] next[j].label) by {
                    if j == existing.len() {
                        assert(next[i] == existing[i]);
                        assert(next[j] == imported[0]);
                    } else {
                        assert(next[i] == existing[i]);
                        assert(next[j] == existing[j]);
                    }
                }
            }
        }
        lemma_merge_keeps_labels_distinct(next, imported.drop_first());
    }
}

/// Every profile a merge appends is one of the imported profiles, unchanged in
/// every field.
pub proof fn lemma_merge_appends_imported(existing: Seq<ProfileView>, imported: Seq<ProfileView>)
    ensures
        forall|k: int|
            existing.len() <= k < merged(existing, imported).len() ==> exists|j: int|
                0 <= j < imported.len() && #[trigger] merged(existing, imported)[k] == imported[j],
    decreases imported.len(),
{
    lemma_merged_extends(existing, imported);
    if imported.len() > 0 {
        let next = if label_taken(existing, imported[0].label) {
            existing
        } else {
            existing.push(imported[0])
        };
        let rest = imported.drop_first();
        lemma_merge_appends_imported(next, rest);
        lemma_merged_extends(next, rest);
        let m = merged(existing, imported);
        assert forall|k: int| existing.len() <= k < m.len() implies exists|j: int|
            0 <= j < imported.len() && #[trigger] m[k] == imported[j] by {
            if k < next.len() {
                assert(m[k] == merged(next, rest).take(next.len() as int)[k]);
                assert(m[k] == imported[0]);
            } else {
                let j = choose|j: int| 0 <= j < rest.len() && merged(next, rest)[k] == rest[j];
                assert(imported[j + 1] == rest[j]);
            }
        }
    }
}

/// Where no two labels among the existing and imported profiles match up to
/// case, a merge appends all imported profiles, in order and unchanged.
pub proof fn lemma_merge_without_clash(existing: Seq<ProfileView>, imported: Seq<ProfileView>)
    requires
        labels_distinct(existing + imported),
    ensures
        merged(existing, imported) == existing + imported,
    decreases imported.len(),
{
    if imported.len() == 0 {
        assert(existing + imported =~= existing);
    } else {
        let all = existing + imported;
        assert(!label_taken(existing, imported[0].label)) by {
            if label_taken(existing, imported[0].label) {
                let j = choose|j: int|
                    0 <= j < existing.len() && lowercase_of(#[trigger] existing[j].label)
                        == lowercase_of(imported[0].label);
                assert(all[j] == existing[j]);
                assert(all[existing.len() as int] == imported[0]);
            }
        }
        let next = existing.push(imported[0]);
        let rest = imported.drop_first();
        assert(next + rest =~= all);
        lemma_merge_without_clash(next, rest);
    }
}

/// An edit keeps the id and sets the trimmed label, the trimmed host and exactly
/// the requested port, whatever the profile held before.
pub proof fn lemma_edit_sets_fields(p: ProfileView, label: Seq<char>, host: Seq<char>, port: u16)
    ensures
        edited(p, label, host, port).id == p.id,
        edited(p, label, host, port).label == trimmed(label),
        edited(p, label, host, port).host == trimmed(host),
        edited(p, label, host, port).port == port,
{
}

/// Looking a profile up by id gives the first profile with that id, or nothing
/// when none has it.
pub proof fn lemma_lookup_by_id(ps: Seq<ProfileView>, id: Seq<char>, i: int)
    ensures
        0 <= i < ps.len() && ps[i].id == id && (forall|j: int| 0 <= j < i ==> ps[j].id != id)
            ==> profile_with_id(ps, id) == Some(ps[i]),
        (forall|j: int| 0 <= j < ps.len() ==> ps[j].id != id) ==> profile_with_id(ps, id) is None,
{
    lemma_first_index(ps, id_is(id));
}

/// Looking a profile up by id or label gives the first profile with that id;
/// when none has it, the first profile in the whole list with that label; and
/// nothing when neither matches.
pub proof fn lemma_lookup_by_id_or_label(ps: Seq<ProfileView>, key: Seq<char>, i: int)
    ensures
        0 <= i < ps.len() && ps[i].id == key && (forall|j: int| 0 <= j < i ==> ps[j].id != key)
            ==> profile_with_id_or_label(ps, key) == Some(ps[i]),
        (forall|j: int| 0 <= j < ps.len() ==> ps[j].id != key) && 0 <= i < ps.len() && ps[i].label
            == key && (forall|j: int| 0 <= j < i ==> ps[j].label != key) ==> profile_with_id_or_label(
            ps,
            key,
        ) == Some(ps[i]),
        (forall|j: int| 0 <= j < ps.len() ==> ps[j].id != key && ps[j].label != key)
            ==> profile_with_id_or_label(ps, key) is None,
{
    lemma_first_index(ps, id_is(key));
    lemma_first_index(ps, label_is(key));
    if 0 <= i < ps.len() && ps[i].id == key && (forall|j: int| 0 <= j < i ==> ps[j].id != key) {
        assert forall|j: int| 0 <= j < i implies !id_is(key)(#[trigger] ps[j]) by {}
        lemma_first_index_at(ps, id_is(key), i);
    }
    if (forall|j: int| 0 <= j < ps.len() ==> ps[j].id != key) && 0 <= i < ps.len() && ps[i].label
        == key && (forall|j: int| 0 <= j < i ==> ps[j].label != key) {
        assert forall|j: int| 0 <= j < ps.len() implies !id_is(key)(#[trigger] ps[j]) by {}
        lemma_first_index_at(ps, id_is(key), ps.len() as int);
        assert forall|j: int| 0 <= j < i implies !label_is(key)(#[trigger] ps[j]) by {}
        lemma_first_index_at(ps, label_is(key), i);
    }
}

} // verus!
