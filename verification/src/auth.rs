//! Authentication: without proof, by password, and by public key.

use crate::config::{explicit_auth, Config, ConfigView};
use crate::error::{Error, ErrorView};
use crate::text::{chars, lines, lines_of, option_text, texts, trim, trimmed};
use vstd::prelude::*;
use vstd::utf8::encode_utf8_decode_utf8;

verus! {

/// A public key: its encoding, by which keys are told apart, and its fingerprint.
#[derive(Debug)]
pub struct PublicKey {
    pub data: Vec<u8>,
    pub fingerprint: String,
}

/// What a [`PublicKey`] holds.
pub struct KeyView {
    pub data: Seq<u8>,
    pub fingerprint: Seq<char>,
}

impl View for PublicKey {
    type V = KeyView;

    open spec fn view(&self) -> KeyView {
        KeyView { data: self.data@, fingerprint: self.fingerprint@ }
    }
}

/// What a client offers as proof of who it is.
#[non_exhaustive]
pub enum AuthMethod {
    /// Nothing: the method `none`.
    Anonymous,
    /// A password.
    Password(String),
    /// A public key.
    PublicKey(PublicKey),
}

/// What is logged of a method. A password never is.
pub open spec fn method_text(m: AuthMethod) -> Seq<char> {
    match m {
        AuthMethod::Anonymous => "None"@,
        AuthMethod::Password(_) => "Password(***)"@,
        AuthMethod::PublicKey(k) => "PublicKey("@ + k.fingerprint@ + ")"@,
    }
}

impl AuthMethod {
    /// What is logged of the method. A password never is.
    pub fn describe(&self) -> (r: String)
        ensures
            r@ == method_text(*self),
    {
        match self {
            AuthMethod::Anonymous => "None".to_owned(),
            AuthMethod::Password(_) => "Password(***)".to_owned(),
            AuthMethod::PublicKey(k) => {
                let mut r = "PublicKey(".to_owned();
                r.append(k.fingerprint.as_str());
                r.append(")");
                r
            },
        }
    }
}

/// One attempt of a client.
#[non_exhaustive]
pub struct AuthRequest {
    /// The name that the client gave.
    pub user: String,
    /// What it offers.
    pub method: AuthMethod,
}

impl AuthRequest {
    /// The attempt of a client with this name.
    pub fn new(user: &str, method: AuthMethod) -> (r: Self)
        ensures
            r.user@ == user@,
            r.method == method,
    {
        AuthRequest { user: user.to_owned(), method }
    }
}

/// What comes of an attempt.
#[derive(Debug, Clone, Copy, PartialEq, Eq, Structural)]
#[non_exhaustive]
pub enum AuthResult {
    /// The client is let in.
    Accept,
    /// The client may try something else.
    Reject,
    /// The attempt succeeded, and more is asked for.
    Partial,
}

/// A way to authenticate, as it is offered to a client.
#[derive(Debug, Clone, Copy, PartialEq, Eq, Structural)]
pub enum MethodKind {
    /// The method `none`.
    Anonymous,
    PublicKey,
    Password,
}

/// What `ssh-key` reads from a line with a public key: the encoding and the SHA-256
/// fingerprint of the key, or the message about why there is none.
pub uninterp spec fn openssh_key(line: Seq<char>) -> Result<KeyView, Seq<char>>;

/// What a result of reading a key holds.
pub open spec fn key_result(r: Result<PublicKey, String>) -> Result<KeyView, Seq<char>> {
    match r {
        Ok(k) => Ok(k@),
        Err(e) => Err(e@),
    }
}

/// `russh::keys::PublicKey::from_openssh`, and of the key `to_bytes` and its SHA-256
/// `fingerprint`. The result depends on the line alone.
#[verifier::external_body]
fn from_openssh(line: &str) -> (r: Result<PublicKey, String>)
    ensures
        key_result(r) == openssh_key(line@),
{
    let key = russh::keys::PublicKey::from_openssh(line).map_err(|e| e.to_string())?;
    let data = key.to_bytes().map_err(|e| e.to_string())?;
    let fingerprint = key.fingerprint(russh::keys::HashAlg::Sha256).to_string();
    Ok(PublicKey { data, fingerprint })
}

/// Whether two runs of bytes are the same, in a time that depends on their lengths
/// alone.
pub fn constant_time_eq(a: &[u8], b: &[u8]) -> (r: bool)
    ensures
        r == (a@ == b@),
{
    if a.len() != b.len() {
        return false;
    }
    let mut diff: u8 = 0;
    let mut i: usize = 0;
    while i < a.len()
        invariant
            i <= a@.len() == b@.len(),
            diff == 0 <==> forall|k: int| 0 <= k < i ==> a@[k] == b@[k],
        decreases a@.len() - i,
    {
        let x: u8 = a[i];
        let y: u8 = b[i];
        assert((diff | (x ^ y)) == 0 <==> (diff == 0 && x == y)) by (bit_vector);
        diff = diff | (x ^ y);
        i = i + 1;
    }
    proof {
        if diff == 0 {
            assert(a@ =~= b@);
        }
    }
    diff == 0
}

/// Whether two texts are the same, in a time that depends on their lengths alone.
pub fn same_secret(a: &str, b: &str) -> (r: bool)
    ensures
        r == (a@ == b@),
{
    proof {
        encode_utf8_decode_utf8(a@);
        encode_utf8_decode_utf8(b@);
    }
    constant_time_eq(a.as_bytes(), b.as_bytes())
}

/// Whether a line of a file of authorized keys holds a key.
pub open spec fn key_line(line: Seq<char>) -> bool {
    trimmed(line).len() > 0 && trimmed(line)[0] != '#'
}

/// The lines of a file of authorized keys that hold a key, without white space around
/// them.
pub open spec fn key_lines(all: Seq<Seq<char>>) -> Seq<Seq<char>>
    decreases all.len(),
{
    if all.len() == 0 {
        all
    } else if key_line(all.last()) {
        key_lines(all.drop_last()).push(trimmed(all.last()))
    } else {
        key_lines(all.drop_last())
    }
}

/// The keys among the results of reading lines. Lines that could not be read are passed
/// over.
pub open spec fn readable(all: Seq<Result<KeyView, Seq<char>>>) -> Seq<KeyView>
    decreases all.len(),
{
    if all.len() == 0 {
        Seq::empty()
    } else {
        match all.last() {
            Ok(k) => readable(all.drop_last()).push(k),
            Err(_) => readable(all.drop_last()),
        }
    }
}

/// What is read from each line.
pub open spec fn read_each(all: Seq<Seq<char>>) -> Seq<Result<KeyView, Seq<char>>> {
    Seq::new(all.len(), |i: int| openssh_key(all[i]))
}

/// The keys of a file of authorized keys.
pub open spec fn keys_in(content: Seq<char>) -> Seq<KeyView> {
    readable(read_each(key_lines(lines_of(content))))
}

/// The keys of several files, one after the other.
pub open spec fn keys_in_all(files: Seq<Seq<char>>) -> Seq<KeyView>
    decreases files.len(),
{
    if files.len() == 0 {
        Seq::empty()
    } else {
        keys_in_all(files.drop_last()) + keys_in(files.last())
    }
}

/// What a list of keys holds.
pub open spec fn key_views(v: Seq<PublicKey>) -> Seq<KeyView> {
    Seq::new(v.len(), |i: int| v[i]@)
}

/// What a list of results of reading keys holds.
pub open spec fn result_views(v: Seq<Result<PublicKey, String>>) -> Seq<
    Result<KeyView, Seq<char>>,
> {
    Seq::new(v.len(), |i: int| key_result(v[i]))
}

/// The lines of a file of authorized keys that hold a key: neither blank lines nor
/// comments, and without white space around them.
pub fn find_key_lines(content: &str) -> (r: Vec<String>)
    ensures
        texts(r@) == key_lines(lines_of(content@)),
{
    let all = lines(content);
    let ghost view = lines_of(content@);
    let mut r: Vec<String> = Vec::new();
    let mut i: usize = 0;
    assert(view.take(0) =~= Seq::<Seq<char>>::empty());
    assert(texts(r@) =~= Seq::<Seq<char>>::empty());
    while i < all.len()
        invariant
            view == texts(all@),
            i <= all@.len(),
            texts(r@) == key_lines(view.take(i as int)),
        decreases all@.len() - i,
    {
        let line = trim(all[i].as_str());
        let v = chars(line.as_str());
        let ghost before = r@;
        proof {
            assert(view.take(i + 1).drop_last() =~= view.take(i as int));
            assert(view.take(i + 1).last() == all@[i as int]@);
        }
        if v.len() > 0 && v[0] != '#' {
            r.push(line);
            assert(texts(r@) =~= texts(before).push(line@));
        }
        i = i + 1;
    }
    assert(view.take(i as int) =~= view);
    r
}

/// Puts the keys among `results` behind `keys`. Lines that could not be read are passed
/// over.
pub fn keep_readable(keys: &mut Vec<PublicKey>, results: Vec<Result<PublicKey, String>>)
    ensures
        key_views(final(keys)@) == key_views(old(keys)@) + readable(result_views(results@)),
{
    let ghost before = key_views(keys@);
    let ghost all = result_views(results@);
    let mut rest: Vec<PublicKey> = Vec::new();
    for x in it: results
        invariant
            it.seq() == results@,
            all == result_views(results@),
            key_views(rest@) == readable(all.take(it.index())),
    {
        let ghost have = rest@;
        proof {
            let k = it.index();
            assert(all.take(k + 1).drop_last() =~= all.take(k));
            assert(all.take(k + 1).last() == key_result(x));
        }
        match x {
            Ok(key) => {
                rest.push(key);
                assert(key_views(rest@) =~= key_views(have).push(key@));
            },
            Err(_) => {},
        }
    }
    assert(all.take(all.len() as int) =~= all);
    let ghost found = rest@;
    keys.append(&mut rest);
    assert(key_views(keys@) =~= before + key_views(found));
}

/// Puts the keys of a file of authorized keys behind `keys`.
pub fn load_authorized_keys(content: &str, keys: &mut Vec<PublicKey>)
    ensures
        key_views(final(keys)@) == key_views(old(keys)@) + keys_in(content@),
{
    let all = find_key_lines(content);
    let mut results: Vec<Result<PublicKey, String>> = Vec::new();
    let mut i: usize = 0;
    while i < all.len()
        invariant
            i <= all@.len(),
            results@.len() == i,
            forall|k: int|
                0 <= k < i ==> key_result(#[trigger] results@[k]) == openssh_key(all@[k]@),
        decreases all@.len() - i,
    {
        results.push(from_openssh(all[i].as_str()));
        i = i + 1;
    }
    assert(result_views(results@) =~= read_each(texts(all@)));
    keep_readable(keys, results);
}

/// The message about a key on the command line or in the settings that could not be
/// read.
pub open spec fn inline_error(e: Seq<char>) -> ErrorView {
    ErrorView::PublicKey("could not parse inline public key: "@ + e)
}

/// What follows from reading a key on the command line or in the settings.
pub fn inline_key(result: Result<PublicKey, String>) -> (r: Result<PublicKey, Error>)
    ensures
        result matches Ok(k) ==> r == Ok::<PublicKey, Error>(k),
        result matches Err(e) ==> (r matches Err(f) && f@ == inline_error(e@)),
{
    match result {
        Ok(k) => Ok(k),
        Err(e) => {
            let mut message = "could not parse inline public key: ".to_owned();
            message.append(e.as_str());
            Err(Error::PublicKey(message))
        },
    }
}

/// A public key in one line of text.
pub fn parse_public_key_line(line: &str) -> (r: Result<PublicKey, Error>)
    ensures
        openssh_key(trimmed(line@)) matches Ok(k) ==> (r matches Ok(p) && p@ == k),
        openssh_key(trimmed(line@)) matches Err(e) ==> (r matches Err(f) && f@ == inline_error(e)),
{
    inline_key(from_openssh(trim(line).as_str()))
}

/// Who is let in.
#[derive(Debug)]
pub struct AuthConfig {
    /// Whether a client is let in without proof of who it is.
    pub anonymous: bool,
    /// The password that lets a client in.
    pub password: Option<String>,
    /// The keys that let a client in.
    pub authorized_keys: Vec<PublicKey>,
}

/// Whether a client is let in without proof of who it is: only where that is allowed,
/// and no password and no key is set.
pub open spec fn anonymous_allowed(c: ConfigView) -> bool {
    c.allow_anonymous && !explicit_auth(c)
}

/// The keys in lines of text, or the failure of the first that could not be read.
pub open spec fn inline_keys(all: Seq<Seq<char>>) -> Result<Seq<KeyView>, ErrorView>
    decreases all.len(),
{
    if all.len() == 0 {
        Ok(Seq::empty())
    } else {
        match inline_keys(all.drop_last()) {
            Err(e) => Err(e),
            Ok(front) => match openssh_key(trimmed(all.last())) {
                Ok(k) => Ok(front.push(k)),
                Err(e) => Err(inline_error(e)),
            },
        }
    }
}

/// What could be read of each file of authorized keys.
pub open spec fn file_texts(files: Seq<Result<String, String>>) -> Seq<Seq<char>> {
    Seq::new(
        files.len(),
        |i: int|
            match files[i] {
                Ok(s) => s@,
                Err(s) => s@,
            },
    )
}

/// Whether `i` is the first of the files that could not be read.
pub open spec fn first_unread(files: Seq<Result<String, String>>, i: int) -> bool {
    0 <= i < files.len() && files[i] is Err && forall|k: int| 0 <= k < i ==> files[k] is Ok
}

proof fn inline_keys_stop(all: Seq<Seq<char>>, n: int)
    requires
        0 <= n <= all.len(),
        inline_keys(all.take(n)) is Err,
    ensures
        inline_keys(all) == inline_keys(all.take(n)),
    decreases all.len() - n,
{
    if n < all.len() {
        assert(all.take(n + 1).drop_last() =~= all.take(n));
        inline_keys_stop(all, n + 1);
    } else {
        assert(all.take(n) =~= all);
    }
}

impl AuthConfig {
    /// Who is let in by the settings. `files` holds, for each file of authorized keys,
    /// what it holds or why it could not be read.
    pub fn from_config(cfg: &Config, files: &Vec<Result<String, String>>) -> (r: Result<
        AuthConfig,
        Error,
    >)
        requires
            files@.len() == cfg.authorized_keys@.len(),
        ensures
            (forall|i: int| !first_unread(files@, i)) ==> match inline_keys(
                cfg@.authorized_key_lines,
            ) {
                Ok(inline) => r matches Ok(a) && a.anonymous == anonymous_allowed(cfg@)
                    && option_text(a.password) == cfg@.password && key_views(a.authorized_keys@)
                    == keys_in_all(file_texts(files@)) + inline,
                Err(e) => r matches Err(f) && f@ == e,
            },
            forall|i: int| #[trigger]
                first_unread(files@, i) ==> (r matches Err(f) && f@
                    == (ErrorView::AuthorizedKeys {
                    path: cfg@.authorized_keys[i],
                    source: file_texts(files@)[i],
                })),
    {
        let mut keys: Vec<PublicKey> = Vec::new();
        let ghost contents = file_texts(files@);
        let mut i: usize = 0;
        assert(contents.take(0) =~= Seq::<Seq<char>>::empty());
        assert(key_views(keys@) =~= Seq::<KeyView>::empty());
        while i < files.len()
            invariant
                contents == file_texts(files@),
                files@.len() == cfg.authorized_keys@.len(),
                i <= files@.len(),
                forall|k: int| 0 <= k < i ==> files@[k] is Ok,
                key_views(keys@) == keys_in_all(contents.take(i as int)),
            decreases files@.len() - i,
        {
            proof {
                assert(contents.take(i + 1).drop_last() =~= contents.take(i as int));
            }
            match &files[i] {
                Ok(content) => load_authorized_keys(content.as_str(), &mut keys),
                Err(source) => {
                    assert(first_unread(files@, i as int));
                    assert forall|j: int| #[trigger] first_unread(files@, j) implies j == i by {}
                    return Err(
                        Error::AuthorizedKeys {
                            path: cfg.authorized_keys[i].clone(),
                            source: source.clone(),
                        },
                    );
                },
            }
            i = i + 1;
        }
        assert(contents.take(i as int) =~= contents);
        let ghost from_files = key_views(keys@);
        let ghost all = cfg@.authorized_key_lines;
        let mut j: usize = 0;
        assert(all.take(0) =~= Seq::<Seq<char>>::empty());
        assert(from_files + Seq::<KeyView>::empty() =~= from_files);
        while j < cfg.authorized_key_lines.len()
            invariant
                all == texts(cfg.authorized_key_lines@),
                all == cfg@.authorized_key_lines,
                j <= all.len(),
                forall|k: int| !first_unread(files@, k),
                inline_keys(all.take(j as int)) is Ok,
                key_views(keys@) == from_files + inline_keys(all.take(j as int))->Ok_0,
            decreases all.len() - j,
        {
            let ghost before = keys@;
            proof {
                assert(all.take(j + 1).drop_last() =~= all.take(j as int));
                assert(all.take(j + 1).last() == cfg.authorized_key_lines@[j as int]@);
            }
            match parse_public_key_line(cfg.authorized_key_lines[j].as_str()) {
                Ok(key) => {
                    keys.push(key);
                    assert(key_views(keys@) =~= key_views(before).push(key@));
                    assert(key_views(keys@) =~= from_files + inline_keys(all.take(j + 1))->Ok_0);
                },
                Err(e) => {
                    proof {
                        inline_keys_stop(all, j + 1);
                    }
                    return Err(e);
                },
            }
            j = j + 1;
        }
        assert(all.take(j as int) =~= all);
        let password = match &cfg.password {
            Some(p) => Some(p.clone()),
            None => None,
        };
        Ok(
            AuthConfig {
                anonymous: cfg.allow_anonymous && !cfg.has_explicit_auth(),
                password,
                authorized_keys: keys,
            },
        )
    }

    /// The ways to authenticate that a client is offered. `has_hook` says whether
    /// something else decides, which may accept any of them.
    pub fn method_set(&self, has_hook: bool) -> (r: Vec<MethodKind>)
        ensures
            r@ == offered(*self, has_hook),
    {
        let mut kinds: Vec<MethodKind> = Vec::new();
        if has_hook || self.anonymous {
            kinds.push(MethodKind::Anonymous);
        }
        if has_hook || self.authorized_keys.len() > 0 {
            kinds.push(MethodKind::PublicKey);
        }
        if has_hook || self.password.is_some() {
            kinds.push(MethodKind::Password);
        }
        if kinds.len() == 0 {
            kinds.push(MethodKind::Anonymous);
        }
        assert(kinds@ =~= offered(*self, has_hook));
        kinds
    }

    /// Whether the password lets a client in.
    pub fn check_password(&self, password: &str) -> (r: bool)
        ensures
            r == password_fits(*self, password@),
    {
        match &self.password {
            Some(expected) => same_secret(expected.as_str(), password),
            None => false,
        }
    }

    /// Whether the key lets a client in.
    pub fn check_publickey(&self, key: &PublicKey) -> (r: bool)
        ensures
            r == key_fits(*self, key.data@),
    {
        let mut i: usize = 0;
        while i < self.authorized_keys.len()
            invariant
                i <= self.authorized_keys@.len(),
                forall|k: int|
                    0 <= k < i ==> (#[trigger] self.authorized_keys@[k]).data@ != key.data@,
            decreases self.authorized_keys@.len() - i,
        {
            if constant_time_eq(self.authorized_keys[i].data.as_slice(), key.data.as_slice()) {
                return true;
            }
            i = i + 1;
        }
        false
    }

    /// Whether what a client offers lets it in.
    pub fn check(&self, method: &AuthMethod) -> (r: bool)
        ensures
            r == lets_in(*self, *method),
    {
        match method {
            AuthMethod::Anonymous => self.anonymous,
            AuthMethod::Password(p) => self.check_password(p.as_str()),
            AuthMethod::PublicKey(k) => self.check_publickey(k),
        }
    }
}

/// The ways to authenticate that a client is offered. Where none would succeed, it is
/// offered to try without proof.
pub open spec fn offered(a: AuthConfig, has_hook: bool) -> Seq<MethodKind> {
    if has_hook {
        seq![MethodKind::Anonymous, MethodKind::PublicKey, MethodKind::Password]
    } else if !a.anonymous && a.authorized_keys@.len() == 0 && a.password is None {
        seq![MethodKind::Anonymous]
    } else {
        (if a.anonymous {
            seq![MethodKind::Anonymous]
        } else {
            Seq::empty()
        }) + (if a.authorized_keys@.len() > 0 {
            seq![MethodKind::PublicKey]
        } else {
            Seq::empty()
        }) + (if a.password is Some {
            seq![MethodKind::Password]
        } else {
            Seq::empty()
        })
    }
}

/// Whether a password lets a client in.
pub open spec fn password_fits(a: AuthConfig, password: Seq<char>) -> bool {
    a.password is Some && a.password->0@ == password
}

/// Whether a key lets a client in.
pub open spec fn key_fits(a: AuthConfig, data: Seq<u8>) -> bool {
    exists|i: int|
        0 <= i < a.authorized_keys@.len() && (#[trigger] a.authorized_keys@[i]).data@ == data
}

/// Whether what a client offers lets it in. Any one method is enough.
pub open spec fn lets_in(a: AuthConfig, m: AuthMethod) -> bool {
    match m {
        AuthMethod::Anonymous => a.anonymous,
        AuthMethod::Password(p) => password_fits(a, p@),
        AuthMethod::PublicKey(k) => key_fits(a, k.data@),
    }
}

/// Where a password or a key is set, or where that is not allowed, no client is let in
/// without proof of who it is.
pub proof fn explicit_authentication_shuts_out_anonymous(c: ConfigView, a: AuthConfig)
    requires
        a.anonymous == anonymous_allowed(c),
        explicit_auth(c) || !c.allow_anonymous,
    ensures
        !lets_in(a, AuthMethod::Anonymous),
{
}

/// What is logged of a password does not depend on it.
pub proof fn passwords_are_not_logged(p: String, q: String)
    ensures
        method_text(AuthMethod::Password(p)) == method_text(AuthMethod::Password(q)),
{
}

proof fn key_lines_of_joined(a: Seq<Seq<char>>, b: Seq<Seq<char>>)
    ensures
        key_lines(a + b) == key_lines(a) + key_lines(b),
    decreases b.len(),
{
    if b.len() == 0 {
        assert(a + b =~= a);
        assert(key_lines(a) + key_lines(b) =~= key_lines(a));
    } else {
        key_lines_of_joined(a, b.drop_last());
        assert((a + b).drop_last() =~= a + b.drop_last());
        assert((a + b).last() == b.last());
        assert(key_lines(a + b) =~= key_lines(a) + key_lines(b));
    }
}

/// The lines of a file that hold a key are found line by line: what is found in two runs of
/// lines is what is found in the first and then in the second, and in one line that line
/// without white space around it, unless nothing is left of it or it is a comment.
pub proof fn key_lines_are_found_one_by_one(a: Seq<Seq<char>>, b: Seq<Seq<char>>, line: Seq<char>)
    ensures
        key_lines(a + b) == key_lines(a) + key_lines(b),
        key_lines(seq![line]) == (if trimmed(line).len() == 0 || trimmed(line)[0] == '#' {
            Seq::<Seq<char>>::empty()
        } else {
            seq![trimmed(line)]
        }),
{
    key_lines_of_joined(a, b);
    assert(seq![line].drop_last() =~= Seq::<Seq<char>>::empty());
    assert(key_lines(Seq::<Seq<char>>::empty()) =~= Seq::<Seq<char>>::empty());
    assert(Seq::<Seq<char>>::empty().push(trimmed(line)) =~= seq![trimmed(line)]);
}

proof fn readable_of_joined(
    a: Seq<Result<KeyView, Seq<char>>>,
    b: Seq<Result<KeyView, Seq<char>>>,
)
    ensures
        readable(a + b) == readable(a) + readable(b),
    decreases b.len(),
{
    if b.len() == 0 {
        assert(a + b =~= a);
        assert(readable(a) + readable(b) =~= readable(a));
    } else {
        readable_of_joined(a, b.drop_last());
        assert((a + b).drop_last() =~= a + b.drop_last());
        assert((a + b).last() == b.last());
        assert(readable(a + b) =~= readable(a) + readable(b));
    }
}

/// Every key among results of reading is kept, in their order, and what could not be read
/// keeps no other result out.
pub proof fn readable_keys_are_kept_one_by_one(
    a: Seq<Result<KeyView, Seq<char>>>,
    b: Seq<Result<KeyView, Seq<char>>>,
    key: KeyView,
    message: Seq<char>,
)
    ensures
        readable(a + b) == readable(a) + readable(b),
        readable(a + seq![Ok(key)] + b) == readable(a) + seq![key] + readable(b),
        readable(a + seq![Err(message)] + b) == readable(a) + readable(b),
{
    readable_of_joined(a, b);
    let good: Seq<Result<KeyView, Seq<char>>> = seq![Ok(key)];
    let bad: Seq<Result<KeyView, Seq<char>>> = seq![Err(message)];
    readable_of_joined(a, good);
    readable_of_joined(a + good, b);
    readable_of_joined(a, bad);
    readable_of_joined(a + bad, b);
    assert(good.drop_last() =~= Seq::empty());
    assert(bad.drop_last() =~= Seq::empty());
    assert(readable(Seq::empty()) =~= Seq::empty());
    assert(readable(good) == readable(good.drop_last()).push(key));
    assert(readable(good) =~= seq![key]);
    assert(readable(bad) =~= Seq::<KeyView>::empty());
    assert(readable(a) + readable(bad) =~= readable(a));
}

proof fn read_line_is_kept(all: Seq<Seq<char>>, i: int)
    requires
        0 <= i < all.len(),
        trimmed(all[i]).len() > 0,
        trimmed(all[i])[0] != '#',
        openssh_key(trimmed(all[i])) is Ok,
    ensures
        readable(read_each(key_lines(all))).contains(openssh_key(trimmed(all[i]))->Ok_0),
{
    let line = all[i];
    let key = openssh_key(trimmed(line))->Ok_0;
    let a = all.take(i);
    let b = all.skip(i + 1);
    assert(all =~= a + seq![line] + b);
    key_lines_are_found_one_by_one(a, seq![line], line);
    key_lines_are_found_one_by_one(a + seq![line], b, line);
    let x = read_each(key_lines(a));
    let y = read_each(key_lines(b));
    assert(read_each(key_lines(all)) =~= x + seq![Ok(key)] + y);
    readable_keys_are_kept_one_by_one(x, y, key, Seq::empty());
    let found = readable(x) + seq![key] + readable(y);
    assert(found[readable(x).len() as int] == key);
}

proof fn kept_key_is_read(all: Seq<Seq<char>>, key: KeyView) -> (i: int)
    requires
        readable(read_each(key_lines(all))).contains(key),
    ensures
        0 <= i < all.len(),
        trimmed(all[i]).len() > 0,
        trimmed(all[i])[0] != '#',
        openssh_key(trimmed(all[i])) == Ok::<KeyView, Seq<char>>(key),
    decreases all.len(),
{
    if all.len() == 0 {
        assert(read_each(key_lines(all)) =~= Seq::empty());
        0
    } else {
        let front = all.drop_last();
        let line = all.last();
        assert(all =~= front + seq![line]);
        key_lines_are_found_one_by_one(front, seq![line], line);
        let x = read_each(key_lines(front));
        let y = read_each(key_lines(seq![line]));
        assert(read_each(key_lines(all)) =~= x + y);
        readable_of_joined(x, y);
        if readable(x).contains(key) {
            let i = kept_key_is_read(front, key);
            assert(front[i] == all[i]);
            i
        } else {
            let found = readable(x) + readable(y);
            let k = choose|k: int| 0 <= k < found.len() && found[k] == key;
            if k < readable(x).len() {
                assert(readable(x)[k] == key);
            }
            assert(readable(y)[k - readable(x).len()] == key);
            assert(readable(Seq::empty()) =~= Seq::empty());
            assert(y.len() == 1);
            assert(y.drop_last() =~= Seq::empty());
            assert(y.last() == openssh_key(trimmed(line)));
            all.len() - 1
        }
    }
}

/// A file of authorized keys holds exactly the keys that are read from its lines, whichever
/// lines they stand on: from each line that is neither blank nor a comment and that can be
/// read.
pub proof fn every_line_with_a_key_counts(content: Seq<char>, key: KeyView)
    ensures
        keys_in(content).contains(key) <==> exists|i: int|
            0 <= i < lines_of(content).len() && trimmed(#[trigger] lines_of(content)[i]).len() > 0
                && trimmed(lines_of(content)[i])[0] != '#' && openssh_key(
                trimmed(lines_of(content)[i]),
            ) == Ok::<KeyView, Seq<char>>(key),
{
    let all = lines_of(content);
    if keys_in(content).contains(key) {
        let i = kept_key_is_read(all, key);
        assert(trimmed(all[i]).len() > 0);
    }
    assert forall|i: int|
        0 <= i < all.len() && trimmed(#[trigger] all[i]).len() > 0 && trimmed(all[i])[0] != '#'
            && openssh_key(trimmed(all[i])) == Ok::<KeyView, Seq<char>>(
            key,
        ) implies keys_in(content).contains(key) by {
        read_line_is_kept(all, i);
    }
}

/// The keys of several files are the keys of each of them, one file after the other.
pub proof fn every_file_counts(a: Seq<Seq<char>>, content: Seq<char>, b: Seq<Seq<char>>)
    ensures
        keys_in_all(a + seq![content] + b) == keys_in_all(a) + keys_in(content) + keys_in_all(b),
    decreases b.len(),
{
    if b.len() == 0 {
        assert(a + seq![content] + b =~= a + seq![content]);
        assert((a + seq![content]).drop_last() =~= a);
        assert(keys_in_all(a) + keys_in(content) + keys_in_all(b) =~= keys_in_all(a) + keys_in(
            content,
        ));
    } else {
        every_file_counts(a, content, b.drop_last());
        let all = a + seq![content] + b;
        assert(all.drop_last() =~= a + seq![content] + b.drop_last());
        assert(all.last() == b.last());
        assert(keys_in_all(all) =~= keys_in_all(a) + keys_in(content) + keys_in_all(b));
    }
}

proof fn inline_keys_one_by_one(all: Seq<Seq<char>>)
    ensures
        inline_keys(all) is Ok <==> forall|i: int|
            0 <= i < all.len() ==> openssh_key(trimmed(#[trigger] all[i])) is Ok,
        inline_keys(all) matches Ok(keys) ==> keys.len() == all.len() && forall|i: int|
            0 <= i < all.len() ==> openssh_key(trimmed(#[trigger] all[i])) == Ok::<
                KeyView,
                Seq<char>,
            >(keys[i]),
    decreases all.len(),
{
    if all.len() > 0 {
        let front = all.drop_last();
        inline_keys_one_by_one(front);
        assert(all.last() == all[all.len() - 1]);
        assert forall|i: int| 0 <= i < front.len() implies front[i] == #[trigger] all[i] by {}
        if inline_keys(all) is Ok {
            let keys = inline_keys(all)->Ok_0;
            assert forall|i: int| 0 <= i < all.len() implies openssh_key(trimmed(#[trigger] all[i]))
                == Ok::<KeyView, Seq<char>>(keys[i]) by {
                if i < front.len() {
                    assert(front[i] == all[i]);
                }
            }
        } else if inline_keys(front) is Ok {
            assert(!(openssh_key(trimmed(all[all.len() - 1])) is Ok));
        }
    }
}

/// Every key on the command line or in the settings counts, and each has to be a key: the
/// message is about the first that is none.
pub proof fn every_inline_key_counts(all: Seq<Seq<char>>, n: int)
    ensures
        inline_keys(all) is Ok <==> forall|i: int|
            0 <= i < all.len() ==> openssh_key(trimmed(#[trigger] all[i])) is Ok,
        inline_keys(all) matches Ok(keys) ==> keys.len() == all.len() && forall|i: int|
            0 <= i < all.len() ==> openssh_key(trimmed(#[trigger] all[i])) == Ok::<
                KeyView,
                Seq<char>,
            >(keys[i]),
        0 <= n < all.len() && openssh_key(trimmed(all[n])) is Err && (forall|i: int|
            0 <= i < n ==> openssh_key(trimmed(#[trigger] all[i])) is Ok) ==> inline_keys(all)
            == Err::<Seq<KeyView>, ErrorView>(
            ErrorView::PublicKey(
                "could not parse inline public key: "@ + openssh_key(trimmed(all[n]))->Err_0,
            ),
        ),
{
    inline_keys_one_by_one(all);
    if 0 <= n < all.len() && openssh_key(trimmed(all[n])) is Err && (forall|i: int|
        0 <= i < n ==> openssh_key(trimmed(#[trigger] all[i])) is Ok) {
        let front = all.take(n);
        assert forall|i: int| 0 <= i < front.len() implies openssh_key(
            trimmed(#[trigger] front[i]),
        ) is Ok by {
            assert(front[i] == all[i]);
        }
        inline_keys_one_by_one(front);
        assert(all.take(n + 1).drop_last() =~= front);
        assert(all.take(n + 1).last() == all[n]);
        inline_keys_stop(all, n + 1);
    }
}

/// A client with a key is let in exactly where the key stands on a line of a file of
/// authorized keys or among the keys of the settings.
pub proof fn known_keys_let_clients_in(
    a: AuthConfig,
    files: Seq<Seq<char>>,
    inline: Seq<KeyView>,
    client: PublicKey,
)
    requires
        key_views(a.authorized_keys@) == keys_in_all(files) + inline,
    ensures
        lets_in(a, AuthMethod::PublicKey(client)) <==> (exists|f: int, k: KeyView|
            0 <= f < files.len() && #[trigger] keys_in(files[f]).contains(k) && k.data
                == client.data@) || (exists|i: int|
            0 <= i < inline.len() && (#[trigger] inline[i]).data == client.data@),
{
    let all = keys_in_all(files) + inline;
    let m = keys_in_all(files).len();
    assert(all.len() == a.authorized_keys@.len()) by {
        assert(key_views(a.authorized_keys@).len() == a.authorized_keys@.len());
    }
    if lets_in(a, AuthMethod::PublicKey(client)) {
        let i = choose|i: int|
            0 <= i < a.authorized_keys@.len() && (#[trigger] a.authorized_keys@[i]).data@
                == client.data@;
        assert(key_views(a.authorized_keys@)[i] == a.authorized_keys@[i]@);
        if i < m {
            let (f, j) = key_of_files(files, i);
            assert(keys_in(files[f])[j] == all[i]);
            assert(keys_in(files[f]).contains(all[i]));
        } else {
            assert(inline[i - m] == all[i]);
        }
    }
    assert forall|f: int, k: KeyView|
        0 <= f < files.len() && #[trigger] keys_in(files[f]).contains(k) && k.data
            == client.data@ implies lets_in(a, AuthMethod::PublicKey(client)) by {
        let x = files.take(f);
        let y = files.skip(f + 1);
        assert(files =~= x + seq![files[f]] + y);
        every_file_counts(x, files[f], y);
        let j = choose|j: int| 0 <= j < keys_in(files[f]).len() && keys_in(files[f])[j] == k;
        let at = keys_in_all(x).len() + j;
        assert(all[at] == k);
        assert(key_views(a.authorized_keys@)[at] == a.authorized_keys@[at]@);
    }
    assert forall|i: int|
        0 <= i < inline.len() && (#[trigger] inline[i]).data == client.data@ implies lets_in(
        a,
        AuthMethod::PublicKey(client),
    ) by {
        assert(all[m + i] == inline[i]);
        assert(key_views(a.authorized_keys@)[m + i] == a.authorized_keys@[m + i]@);
    }
}

proof fn key_of_files(files: Seq<Seq<char>>, i: int) -> (r: (int, int))
    requires
        0 <= i < keys_in_all(files).len(),
    ensures
        0 <= r.0 < files.len(),
        0 <= r.1 < keys_in(files[r.0]).len(),
        keys_in(files[r.0])[r.1] == keys_in_all(files)[i],
    decreases files.len(),
{
    let front = files.drop_last();
    if i < keys_in_all(front).len() {
        let r = key_of_files(front, i);
        assert(front[r.0] == files[r.0]);
        r
    } else {
        (files.len() - 1, i - keys_in_all(front).len())
    }
}

/// A client without proof of who it is is let in exactly where that is allowed and neither a
/// password nor a key nor a file of keys is set. A client with a password is let in exactly
/// where one is set and the two are the same.
pub proof fn clients_without_keys(c: ConfigView, a: AuthConfig, password: String)
    requires
        a.anonymous == anonymous_allowed(c),
        option_text(a.password) == c.password,
    ensures
        lets_in(a, AuthMethod::Anonymous) <==> c.allow_anonymous && c.password is None
            && c.authorized_keys.len() == 0 && c.authorized_key_lines.len() == 0,
        lets_in(a, AuthMethod::Password(password)) <==> c.password == Some(password@),
{
}

/// A client is offered what would let it in, and where something else decides, everything. It
/// is offered something in any case, and nothing twice.
pub proof fn useful_methods_are_offered(a: AuthConfig, has_hook: bool, kind: MethodKind)
    ensures
        has_hook ==> offered(a, has_hook).contains(kind),
        !has_hook ==> (offered(a, has_hook).contains(MethodKind::PublicKey)
            <==> a.authorized_keys@.len() > 0),
        !has_hook ==> (offered(a, has_hook).contains(MethodKind::Password) <==> a.password is Some),
        !has_hook ==> (offered(a, has_hook).contains(MethodKind::Anonymous) <==> a.anonymous || (
        a.authorized_keys@.len() == 0 && a.password is None)),
        offered(a, has_hook).no_duplicates(),
{
    let all = offered(a, has_hook);
    if has_hook {
        assert(all[0] is Anonymous && all[1] is PublicKey && all[2] is Password);
        assert(all.contains(kind));
    } else {
        let x: int = if a.anonymous {
            1
        } else {
            0
        };
        let y: int = if a.authorized_keys@.len() > 0 {
            1
        } else {
            0
        };
        if a.anonymous {
            assert(all[0] is Anonymous);
        }
        if a.authorized_keys@.len() > 0 {
            assert(all[x] is PublicKey);
        }
        if a.password is Some {
            assert(all[x + y] is Password);
        }
        if x == 0 && y == 0 && a.password is None {
            assert(all[0] is Anonymous);
        }
    }
}

/// Of a client without proof its method is logged, of a password only that it is one, and of
/// a key its fingerprint.
pub proof fn what_is_logged_of_methods(password: String, key: PublicKey)
    ensures
        method_text(AuthMethod::Anonymous) == "None"@,
        method_text(AuthMethod::Password(password)) == "Password(***)"@,
        method_text(AuthMethod::PublicKey(key)) == "PublicKey("@ + key.fingerprint@ + ")"@,
{
}

/// What a file holds, or why it could not be read, is taken as it is, file by file.
pub proof fn files_are_taken_as_they_are(files: Seq<Result<String, String>>, i: int)
    requires
        0 <= i < files.len(),
    ensures
        file_texts(files).len() == files.len(),
        files[i] matches Ok(s) ==> file_texts(files)[i] == s@,
        files[i] matches Err(s) ==> file_texts(files)[i] == s@,
{
}

/// The file that a failure names is the first one that could not be read.
pub proof fn which_file_is_reported(files: Seq<Result<String, String>>, i: int, j: int)
    ensures
        first_unread(files, i) <==> 0 <= i < files.len() && files[i] is Err && forall|k: int|
            0 <= k < i ==> files[k] is Ok,
        first_unread(files, i) && first_unread(files, j) ==> i == j,
{
}

/// What was read is taken as it is, key by key.
pub proof fn keys_are_taken_as_they_are(
    results: Seq<Result<PublicKey, String>>,
    keys: Seq<PublicKey>,
    i: int,
)
    ensures
        result_views(results).len() == results.len(),
        0 <= i < results.len() ==> (results[i] matches Ok(k) ==> result_views(results)[i] == Ok::<
            KeyView,
            Seq<char>,
        >(k@)),
        0 <= i < results.len() ==> (results[i] matches Err(e) ==> result_views(results)[i] == Err::<
            KeyView,
            Seq<char>,
        >(e@)),
        key_views(keys).len() == keys.len(),
        0 <= i < keys.len() ==> key_views(keys)[i] == (KeyView {
            data: keys[i].data@,
            fingerprint: keys[i].fingerprint@,
        }),
{
}

} // verus!
