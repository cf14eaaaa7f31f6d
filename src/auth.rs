//! Accounts and password checks: each account stores `hex(salt):hex(digest)`
//! where the digest is SHA-256 over the password bytes followed by the salt.
use vstd::prelude::*;
use vstd::string::StringSliceAdditionalSpecFns;

use rand::Rng;
use sha2::Digest;

use crate::protocol::{NodeType, UserInfo};
use crate::text::{chars_of, push_char, string_of};
use crate::path::{components, lemma_pieces_append, lemma_pieces_root, lemma_pieces_slash, non_empty, pieces, plain_segment};
use crate::vfs::{create_node_at, get_path_id, locate, PathTarget, Store};
use crate::vfs_laws::lemma_create_leads_there;

verus! {

/// The SHA-256 digest of `data`.
pub uninterp spec fn sha256_of(data: Seq<u8>) -> Seq<u8>;

/// Relies on `sha2::Sha256::digest`: the digest depends on the bytes alone
/// and is 32 bytes long.
#[verifier::external_body]
fn sha256(data: &Vec<u8>) -> (r: Vec<u8>)
    ensures
        r@ == sha256_of(data@),
        r@.len() == 32,
{
    sha2::Sha256::digest(data).to_vec()
}

/// Relies on `rand::thread_rng` and `Rng::gen` for 16 random bytes.
#[verifier::external_body]
fn random_salt() -> (r: Vec<u8>)
    ensures
        r@.len() == 16,
{
    rand::thread_rng().gen::<[u8; 16]>().to_vec()
}

/// The value of a hex digit, either case.
pub open spec fn hex_value(c: char) -> Option<int> {
    if '0' <= c && c <= '9' {
        Some(c as int - '0' as int)
    } else if 'a' <= c && c <= 'f' {
        Some(c as int - 'a' as int + 10)
    } else if 'A' <= c && c <= 'F' {
        Some(c as int - 'A' as int + 10)
    } else {
        None
    }
}

/// The bytes that the hex text `s` stands for: two digits a byte, high digit
/// first; `None` for an odd length or a character that is no hex digit.
pub open spec fn hex_decoded(s: Seq<char>) -> Option<Seq<u8>> {
    if s.len() % 2 == 0 && forall|i: int| 0 <= i < s.len() ==> (#[trigger] hex_value(s[i])) is Some {
        Some(
            Seq::new(
                (s.len() / 2) as nat,
                |i: int| (hex_value(s[2 * i])->0 * 16 + hex_value(s[2 * i + 1])->0) as u8,
            ),
        )
    } else {
        None
    }
}

pub open spec fn hex_digit(v: int) -> char {
    seq!['0', '1', '2', '3', '4', '5', '6', '7', '8', '9', 'a', 'b', 'c', 'd', 'e', 'f'][v]
}

/// Lower-case hex text of `b`: two digits a byte, high digit first.
pub open spec fn hex_encoded(b: Seq<u8>) -> Seq<char> {
    Seq::new(
        (2 * b.len()) as nat,
        |i: int|
            if i % 2 == 0 {
                hex_digit(b[i / 2] as int / 16)
            } else {
                hex_digit(b[i / 2] as int % 16)
            },
    )
}

/// Relies on `hex::decode`, which reads two digits of either case a byte.
#[verifier::external_body]
fn hex_decode(s: &str) -> (r: Option<Vec<u8>>)
    ensures
        match r {
            Some(v) => hex_decoded(s@) == Some(v@),
            None => hex_decoded(s@) is None,
        },
{
    hex::decode(s).ok()
}

/// Relies on `hex::encode`, which writes two lower-case digits a byte.
#[verifier::external_body]
fn hex_encode(b: &Vec<u8>) -> (r: String)
    ensures
        r@ == hex_encoded(b@),
{
    hex::encode(b)
}

/// One account.
pub struct UserRecord {
    pub id: i64,
    pub username: String,
    pub role: String,
    pub password_hash: String,
}

/// All accounts; ids are handed out from `next_id` on.
pub struct UserTable {
    pub records: Vec<UserRecord>,
    pub next_id: i64,
}

/// Why a password could not be checked.
#[derive(Clone, Copy, Debug, PartialEq, Eq, Structural)]
pub enum AuthError {
    InvalidHashFormat,
    InvalidHex,
    IdsExhausted,
}

impl AuthError {
    /// The text sent to a client.
    pub open spec fn text(&self) -> Seq<char> {
        match self {
            AuthError::InvalidHashFormat => "Invalid password hash format in DB"@,
            AuthError::InvalidHex => "Invalid hex in stored password hash"@,
            AuthError::IdsExhausted => "No user ids left"@,
        }
    }

    pub fn message(&self) -> (r: String)
        ensures
            r@ == self.text(),
    {
        match self {
            AuthError::InvalidHashFormat => String::from_str("Invalid password hash format in DB"),
            AuthError::InvalidHex => String::from_str("Invalid hex in stored password hash"),
            AuthError::IdsExhausted => String::from_str("No user ids left"),
        }
    }
}

impl UserTable {
    pub fn new() -> (r: UserTable)
        ensures
            r.records@.len() == 0,
            r.next_id == 1,
    {
        UserTable { records: Vec::new(), next_id: 1 }
    }
}

/// The first index at or after `from` of an account named `name`.
pub open spec fn first_user(records: Seq<UserRecord>, name: Seq<char>, from: int) -> Option<int>
    decreases records.len() - from,
{
    if from < 0 || from >= records.len() {
        None
    } else if records[from].username@ == name {
        Some(from)
    } else {
        first_user(records, name, from + 1)
    }
}

/// The position of the first `:` at or after `from`, or the length.
pub open spec fn first_colon(s: Seq<char>, from: int) -> int
    decreases s.len() - from,
{
    if from < 0 || from >= s.len() {
        s.len() as int
    } else if s[from] == ':' {
        from
    } else {
        first_colon(s, from + 1)
    }
}

/// `s` holds exactly one `:`.
pub open spec fn one_colon(s: Seq<char>) -> bool {
    let k = first_colon(s, 0);
    k < s.len() && forall|j: int| k < j < s.len() ==> s[j] != ':'
}

/// The salt and digest of a stored hash, each decoded, or why there are none.
pub open spec fn stored_parts(s: Seq<char>) -> Result<(Seq<u8>, Seq<u8>), AuthError> {
    let k = first_colon(s, 0);
    if !one_colon(s) {
        Err(AuthError::InvalidHashFormat)
    } else {
        match (hex_decoded(s.subrange(0, k)), hex_decoded(s.subrange(k + 1, s.len() as int))) {
            (Some(salt), Some(digest)) => Ok((salt, digest)),
            _ => Err(AuthError::InvalidHex),
        }
    }
}

/// What checking `password` (as bytes) for `username` gives: the index of
/// the account where the password fits it, `None` where there is no such
/// account or the password does not fit.
pub open spec fn login_outcome(records: Seq<UserRecord>, username: Seq<char>, password: Seq<u8>) -> Result<
    Option<int>,
    AuthError,
> {
    match first_user(records, username, 0) {
        None => Ok(None),
        Some(i) => match stored_parts(records[i].password_hash@) {
            Err(e) => Err(e),
            Ok((salt, digest)) => if sha256_of(password + salt) == digest {
                Ok(Some(i))
            } else {
                Ok(None)
            },
        },
    }
}

fn bytes_of(s: &str) -> (r: Vec<u8>)
    ensures
        r@ == s.spec_bytes(),
{
    let b = s.as_bytes();
    let mut r: Vec<u8> = Vec::new();
    let mut i: usize = 0;
    while i < b.len()
        invariant
            b@ == s.spec_bytes(),
            0 <= i <= b.len(),
            r@ == b@.subrange(0, i as int),
        decreases b.len() - i,
    {
        r.push(b[i]);
        proof {
            assert(b@.subrange(0, i as int + 1) =~= b@.subrange(0, i as int).push(b@[i as int]));
        }
        i = i + 1;
    }
    proof {
        assert(b@.subrange(0, b.len() as int) =~= b@);
    }
    r
}

fn append_bytes(v: &mut Vec<u8>, s: &Vec<u8>)
    ensures
        final(v)@ == old(v)@ + s@,
{
    let mut i: usize = 0;
    while i < s.len()
        invariant
            0 <= i <= s.len(),
            v@ == old(v)@ + s@.subrange(0, i as int),
        decreases s.len() - i,
    {
        v.push(s[i]);
        proof {
            assert(s@.subrange(0, i as int + 1) =~= s@.subrange(0, i as int).push(s@[i as int]));
            assert(v@ =~= old(v)@ + s@.subrange(0, i as int + 1));
        }
        i = i + 1;
    }
    proof {
        assert(s@.subrange(0, s.len() as int) =~= s@);
    }
}

fn sub_chars(v: &Vec<char>, a: usize, b: usize) -> (r: Vec<char>)
    requires
        a <= b <= v.len(),
    ensures
        r@ == v@.subrange(a as int, b as int),
{
    let mut r: Vec<char> = Vec::new();
    let mut i: usize = a;
    while i < b
        invariant
            a <= i <= b,
            b <= v.len(),
            r@ == v@.subrange(a as int, i as int),
        decreases b - i,
    {
        r.push(v[i]);
        proof {
            assert(v@.subrange(a as int, i as int + 1) =~= v@.subrange(a as int, i as int).push(v@[i as int]));
        }
        i = i + 1;
    }
    r
}

/// SHA-256 over the password bytes followed by the salt.
pub fn hash_password(password: &str, salt: &Vec<u8>) -> (r: Vec<u8>)
    ensures
        r@ == sha256_of(password.spec_bytes() + salt@),
{
    let mut data = bytes_of(password);
    append_bytes(&mut data, salt);
    sha256(&data)
}

/// Splits a stored hash into its decoded salt and digest.
fn split_stored(s: &String) -> (r: Result<(Vec<u8>, Vec<u8>), AuthError>)
    ensures
        match stored_parts(s@) {
            Ok((salt, digest)) => r matches Ok((a, b)) && a@ == salt && b@ == digest,
            Err(e) => r == Err::<(Vec<u8>, Vec<u8>), AuthError>(e),
        },
{
    let c = chars_of(s.as_str());
    let mut first: Option<usize> = None;
    let mut extra = false;
    let mut i: usize = 0;
    while i < c.len()
        invariant
            c@ == s@,
            0 <= i <= c.len(),
            first is None ==> first_colon(s@, 0) == first_colon(s@, i as int) && !extra,
            first matches Some(k) ==> first_colon(s@, 0) == k && k < i,
            first is Some ==> (extra <==> exists|j: int| first->0 < j < i && s@[j] == ':'),
        decreases c.len() - i,
    {
        if c[i] == ':' {
            match first {
                None => {
                    first = Some(i);
                },
                Some(_) => {
                    extra = true;
                },
            }
        }
        i = i + 1;
    }
    let k = match first {
        Some(k) => k,
        None => return Err(AuthError::InvalidHashFormat),
    };
    if extra {
        return Err(AuthError::InvalidHashFormat);
    }
    let salt_text = string_of(&sub_chars(&c, 0, k));
    let digest_text = string_of(&sub_chars(&c, k + 1, c.len()));
    let salt = match hex_decode(salt_text.as_str()) {
        Some(v) => v,
        None => return Err(AuthError::InvalidHex),
    };
    let digest = match hex_decode(digest_text.as_str()) {
        Some(v) => v,
        None => return Err(AuthError::InvalidHex),
    };
    Ok((salt, digest))
}

fn find_user(records: &Vec<UserRecord>, name: &str) -> (r: Option<usize>)
    ensures
        match r {
            Some(i) => first_user(records@, name@, 0) == Some(i as int) && i < records.len(),
            None => first_user(records@, name@, 0) is None,
        },
{
    let wanted = String::from_str(name);
    let mut i: usize = 0;
    while i < records.len()
        invariant
            wanted@ == name@,
            0 <= i <= records.len(),
            first_user(records@, name@, 0) == first_user(records@, name@, i as int),
        decreases records.len() - i,
    {
        if records[i].username == wanted {
            return Some(i);
        }
        i = i + 1;
    }
    None
}

fn same_bytes(a: &Vec<u8>, b: &Vec<u8>) -> (r: bool)
    ensures
        r == (a@ == b@),
{
    if a.len() != b.len() {
        return false;
    }
    let mut i: usize = 0;
    while i < a.len()
        invariant
            a.len() == b.len(),
            0 <= i <= a.len(),
            forall|j: int| 0 <= j < i ==> a@[j] == b@[j],
        decreases a.len() - i,
    {
        if a[i] != b[i] {
            return false;
        }
        i = i + 1;
    }
    proof {
        assert(a@ =~= b@);
    }
    true
}

/// Checks `password` against the account named `username`: the account's
/// identity where it fits, `None` where it does not or there is no such
/// account, and an error where the stored hash cannot be read.
pub fn verify_password(users: &UserTable, username: &str, password: &str) -> (r: Result<
    Option<UserInfo>,
    AuthError,
>)
    ensures
        match login_outcome(users.records@, username@, password.spec_bytes()) {
            Ok(Some(i)) => r matches Ok(Some(u)) && u.id == users.records@[i].id && u.username@
                == users.records@[i].username@ && u.role@ == users.records@[i].role@,
            Ok(None) => r matches Ok(None),
            Err(e) => r == Err::<Option<UserInfo>, AuthError>(e),
        },
{
    let i = match find_user(&users.records, username) {
        Some(i) => i,
        None => return Ok(None),
    };
    let rec = &users.records[i];
    let (salt, digest) = match split_stored(&rec.password_hash) {
        Ok(p) => p,
        Err(e) => return Err(e),
    };
    let provided = hash_password(password, &salt);
    if same_bytes(&provided, &digest) {
        Ok(Some(UserInfo { id: rec.id, username: rec.username.clone(), role: rec.role.clone() }))
    } else {
        Ok(None)
    }
}

fn push_str(s: &mut String, t: &str)
    ensures
        final(s)@ == old(s)@ + t@,
{
    let c = chars_of(t);
    let mut i: usize = 0;
    while i < c.len()
        invariant
            c@ == t@,
            0 <= i <= c.len(),
            s@ == old(s)@ + t@.subrange(0, i as int),
        decreases c.len() - i,
    {
        push_char(s, c[i]);
        proof {
            assert(t@.subrange(0, i as int + 1) =~= t@.subrange(0, i as int).push(t@[i as int]));
            assert(s@ =~= old(s)@ + t@.subrange(0, i as int + 1));
        }
        i = i + 1;
    }
    proof {
        assert(t@.subrange(0, c.len() as int) =~= t@);
    }
}

/// The home directory of `username`: `/home/<username>`.
pub open spec fn home_of(username: Seq<char>) -> Seq<char> {
    seq!['/', 'h', 'o', 'm', 'e', '/'] + username
}

pub fn home_dir(username: &str) -> (r: String)
    ensures
        r@ == home_of(username@),
{
    let mut s = String::new();
    push_str(&mut s, "/home/");
    proof {
        reveal_strlit("/home/");
    }
    push_str(&mut s, username);
    proof {
        assert(s@ =~= home_of(username@));
    }
    s
}

/// The components of `/home` and of `/home/<username>`.
proof fn lemma_home_components(username: Seq<char>)
    requires
        username.len() > 0,
        !username.contains('/'),
    ensures
        components(seq!['/', 'h', 'o', 'm', 'e']) == seq![seq!['h', 'o', 'm', 'e']],
        components(home_of(username)) == seq![seq!['h', 'o', 'm', 'e'], username],
{
    let e = Seq::<char>::empty();
    let home = seq!['h', 'o', 'm', 'e'];
    assert(!home.contains('/')) by {
        if home.contains('/') {
            let k = choose|k: int| 0 <= k < home.len() && home[k] == '/';
            assert(home[k] != '/');
        }
    }
    lemma_pieces_root();
    lemma_pieces_append(seq!['/'], home);
    assert(seq!['/'] + home =~= seq!['/', 'h', 'o', 'm', 'e']);
    assert(seq![e, e].update(1, e + home) =~= seq![e, home]);
    let root_home = seq!['/', 'h', 'o', 'm', 'e'];
    assert(pieces(root_home) == seq![e, home]);
    lemma_pieces_slash(root_home);
    assert(pieces(root_home.push('/')) =~= seq![e, home, e]);
    lemma_pieces_append(root_home.push('/'), username);
    assert(root_home.push('/') + username =~= home_of(username));
    assert(seq![e, home, e].update(2, e + username) =~= seq![e, home, username]);
    let ps = seq![e, home, username];
    assert(pieces(home_of(username)) == ps);
    assert(seq![e, home].drop_last() =~= seq![e]);
    assert(seq![e].drop_last() =~= Seq::<Seq<char>>::empty());
    assert(ps.drop_last() =~= seq![e, home]);
    assert(non_empty(Seq::<Seq<char>>::empty()) =~= Seq::<Seq<char>>::empty());
    assert(seq![e].last() == e);
    assert(non_empty(seq![e]) =~= Seq::<Seq<char>>::empty());
    assert(seq![e, home].last() == home);
    assert(non_empty(seq![e, home]) =~= seq![home]);
    assert(ps.last() == username);
    assert(non_empty(ps) =~= seq![home, username]);
}

/// The stored form of a password hash: `hex(salt):hex(digest)`.
pub open spec fn stored_hash(salt: Seq<u8>, digest: Seq<u8>) -> Seq<char> {
    hex_encoded(salt) + seq![':'] + hex_encoded(digest)
}

/// Adds an account named `username` unless one exists, with a fresh random
/// salt, and gives it a home directory `/home/<username>` (and `/home`,
/// where that does not lead anywhere yet) in `store`.
pub fn create_user_if_not_exists(
    users: &mut UserTable,
    store: &mut Store,
    username: &str,
    password: &str,
    role: &str,
    now: i64,
) -> (r: Result<(), AuthError>)
    requires
        old(store).wf(),
    ensures
        final(store).wf(),
        first_user(old(users).records@, username@, 0) is Some ==> r is Ok && *final(users) == *old(
            users,
        ) && *final(store) == *old(store),
        first_user(old(users).records@, username@, 0) is None && old(users).next_id == i64::MAX
            ==> r == Err::<(), AuthError>(AuthError::IdsExhausted) && *final(users) == *old(users)
            && *final(store) == *old(store),
        first_user(old(users).records@, username@, 0) is None && old(users).next_id < i64::MAX
            ==> {
            &&& r is Ok
            &&& final(users).next_id == old(users).next_id + 1
            &&& final(users).records@.drop_last() == old(users).records@
            &&& final(users).records@.len() == old(users).records@.len() + 1
            &&& ({
                let rec = final(users).records@.last();
                &&& rec.id == old(users).next_id
                &&& rec.username@ == username@
                &&& rec.role@ == role@
                &&& exists|salt: Seq<u8>|
                    salt.len() == 16 && rec.password_hash@ == stored_hash(
                        salt,
                        sha256_of(password.spec_bytes() + salt),
                    )
            })
            &&& (plain_segment(username@) && old(store).next_id < i64::MAX - 1
                && old(store).rows@.len() < usize::MAX - 1) ==> locate(
                final(store).rows@,
                old(users).next_id,
                home_of(username@),
            ) is Node
        },
{
    if find_user(&users.records, username).is_some() {
        return Ok(());
    }
    if users.next_id == i64::MAX {
        return Err(AuthError::IdsExhausted);
    }
    let salt = random_salt();
    let digest = hash_password(password, &salt);
    let mut stored = hex_encode(&salt);
    push_char(&mut stored, ':');
    let digest_text = hex_encode(&digest);
    push_str(&mut stored, digest_text.as_str());
    proof {
        assert(stored@ =~= stored_hash(salt@, sha256_of(password.spec_bytes() + salt@)));
    }
    let id = users.next_id;
    let ghost old_records = users.records@;
    users.records.push(
        UserRecord {
            id,
            username: String::from_str(username),
            role: String::from_str(role),
            password_hash: stored,
        },
    );
    users.next_id = id + 1;
    proof {
        assert(users.records@.drop_last() =~= old_records);
    }
    let home_root = String::from_str("/home");
    proof {
        reveal_strlit("/home");
        assert(home_root@ =~= seq!['/', 'h', 'o', 'm', 'e']);
        if plain_segment(username@) {
            lemma_home_components(username@);
        }
    }
    let ghost s0 = *store;
    if get_path_id(store, id, home_root.as_str()) == PathTarget::Missing {
        let no_blob = String::new();
        let ghost no_location = no_blob@;
        let r1 = create_node_at(store, id, home_root.as_str(), NodeType::Dir, now, no_blob);
        proof {
            if plain_segment(username@) && s0.next_id < i64::MAX - 1 && s0.rows@.len() < usize::MAX - 1 {
                lemma_create_leads_there(s0, *store, id, home_root@, NodeType::Dir, now, no_location, r1);
            }
        }
    }
    let ghost s1 = *store;
    let home = home_dir(username);
    let no_blob = String::new();
    let ghost no_location = no_blob@;
    let r2 = create_node_at(store, id, home.as_str(), NodeType::Dir, now, no_blob);
    proof {
        if plain_segment(username@) && s0.next_id < i64::MAX - 1 && s0.rows@.len() < usize::MAX - 1 {
            let comps = components(home@);
            assert(comps.drop_last() =~= components(home_root@));
            assert(locate(s1.rows@, id, home_root@) is Node);
            lemma_create_leads_there(s1, *store, id, home@, NodeType::Dir, now, no_location, r2);
        }
    }
    Ok(())
}

} // verus!
