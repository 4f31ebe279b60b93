//! Access for accounts: who a bearer of a token is, and what that user may
//! ask of a node.

use vstd::prelude::*;
use vstd::string::*;
use biscuit::jwa::SignatureAlgorithm;
use biscuit::jws::Secret;
use biscuit::{RegisteredClaims, StringOrUri};
use regex::Regex;
use crate::key::segments_view;
use crate::label::{clone_strings, parsed_block, BlockType, BlockTypeView};
use crate::rel::reversed;

verus! {

/// The kinds of refusal.
#[derive(Clone, Copy, Debug, PartialEq, Eq, Structural)]
pub enum AccessErrorKind {
    /// What was asked makes no sense.
    BadRequest,
    /// The node could not find out.
    Unavailable,
    /// The user may not do this.
    Forbidden,
}

/// A refusal, with the reason in words.
#[derive(Debug, PartialEq, Eq)]
pub struct AccessError {
    pub kind: AccessErrorKind,
    pub message: String,
}

/// What was asked for, or the refusal.
pub type AccessResult<T> = Result<T, AccessError>;

/// Whether the error is the refusal of something that only a super user
/// may do.
pub open spec fn is_forbidden(error: AccessError) -> bool {
    error.kind == AccessErrorKind::Forbidden && error.message@ == "forbidden"@
}

impl AccessError {
    /// The refusal of something that only a super user may do.
    pub fn forbidden() -> (error: AccessError)
        ensures
            is_forbidden(error),
    {
        AccessError { kind: AccessErrorKind::Forbidden, message: "forbidden".to_owned() }
    }
}

/// What a node knows of a user.
#[derive(Debug, PartialEq, Eq)]
pub struct User {
    pub name: String,
    /// The public keys of the user, each in PEM.
    pub public_keys: Vec<String>,
    /// The block type of the group that the user belongs to first, as text.
    pub primary_group: String,
    pub super_user: bool,
}

impl Clone for AccessError {
    fn clone(&self) -> (error: AccessError)
        ensures
            error.kind == self.kind,
            error.message@ == self.message@,
    {
        AccessError { kind: self.kind, message: self.message.clone() }
    }
}

impl Clone for User {
    fn clone(&self) -> (user: User)
        ensures
            user.name@ == self.name@,
            segments_view(user.public_keys@) == segments_view(self.public_keys@),
            user.primary_group@ == self.primary_group@,
            user.super_user == self.super_user,
    {
        User {
            name: self.name.clone(),
            public_keys: clone_strings(&self.public_keys),
            primary_group: self.primary_group.clone(),
            super_user: self.super_user,
        }
    }
}

/// Something that belongs to a user.
pub trait Owned {
    /// The name of the user.
    fn user(&self) -> &str;
}

/// What can be asked of a node on behalf of somebody.
pub trait Access: Sized {
    type Job: Owned;

    type Resource;

    type Backend;

    type Peer;

    /// The name of the user on whose behalf the node is asked.
    fn who_am_i(&self) -> &str;

    /// The name of the group that this user belongs to first.
    fn default_group(&self) -> &str;

    fn shared_job(&self, job_id: &str) -> AccessResult<Self::Job>;

    fn backend(&self, rt: &BlockType) -> AccessResult<Self::Backend>;

    fn resource(&self, resource_ty: &BlockType) -> AccessResult<Self::Resource>;

    fn resources(&self, pat: &BlockType) -> AccessResult<Vec<Self::Resource>>;

    fn peer(&self) -> AccessResult<Self::Peer>;

    fn acquire_lock(&self) -> AccessResult<String>;

    fn release_lock(&self, lock_id: &str) -> AccessResult<()>;

    fn list_jobs(&self) -> AccessResult<Vec<Self::Job>>;

    /// What the node knows of the user of the given name, if it knows one.
    fn user(&self, user_id: &str) -> AccessResult<Option<User>>;
}

/// The access of a user whose identity was checked: what the user may ask
/// of the node, and no more.
///
/// The block types of the user and of the group have two labels at least:
/// the second is the name.
pub struct AccountAccess<A> {
    user: BlockType,
    primary_group: BlockType,
    super_user: bool,
    inner: A,
}

impl<A> AccountAccess<A> {
    #[verifier::type_invariant]
    spec fn named(self) -> bool {
        self.user.labels@.len() >= 2 && self.primary_group.labels@.len() >= 2
    }

    /// The block type of the user.
    pub closed spec fn user_block(self) -> BlockTypeView {
        self.user@
    }

    /// The block type of the group that the user belongs to first.
    pub closed spec fn group_block(self) -> BlockTypeView {
        self.primary_group@
    }

    /// Whether the user may do everything.
    pub closed spec fn is_super(self) -> bool {
        self.super_user
    }

    /// The access that this one narrows.
    pub closed spec fn inner(self) -> A {
        self.inner
    }

    /// The access of the given user over `inner`. There is none where the
    /// block type of the user or of the group has no second label.
    pub fn new(user: BlockType, primary_group: BlockType, super_user: bool, inner: A) -> (access:
        Option<AccountAccess<A>>)
        ensures
            access.is_some() <==> user@.labels.len() >= 2 && primary_group@.labels.len() >= 2,
            access matches Some(a) ==> {
                &&& a.user_block() == user@
                &&& a.group_block() == primary_group@
                &&& a.is_super() == super_user
                &&& a.inner() == inner
            },
    {
        if user.labels.len() >= 2 && primary_group.labels.len() >= 2 {
            Some(AccountAccess { user, primary_group, super_user, inner })
        } else {
            None
        }
    }

    /// The name of the user: the second label of its block type.
    pub fn user_id(&self) -> (id: &str)
        ensures
            self.user_block().labels.len() >= 2,
            id@ == self.user_block().labels[1],
    {
        proof {
            use_type_invariant(self);
        }
        self.user.labels[1].as_str()
    }

    /// The name of the group: the second label of its block type.
    pub fn primary_group_id(&self) -> (id: &str)
        ensures
            self.group_block().labels.len() >= 2,
            id@ == self.group_block().labels[1],
    {
        proof {
            use_type_invariant(self);
        }
        self.primary_group.labels[1].as_str()
    }

    /// Passes for a super user, and refuses anybody else.
    pub fn ensure_super(&self) -> (pass: AccessResult<()>)
        ensures
            pass.is_ok() == self.is_super(),
            pass matches Err(error) ==> is_forbidden(error),
    {
        if !self.super_user {
            Err(AccessError::forbidden())
        } else {
            Ok(())
        }
    }
}

impl<A: Clone> Clone for AccountAccess<A> {
    /// The access of the same user over a clone of the access that it narrows.
    fn clone(&self) -> (access: AccountAccess<A>)
        ensures
            access.user_block() == self.user_block(),
            access.group_block() == self.group_block(),
            access.is_super() == self.is_super(),
            cloned(self.inner(), access.inner()),
    {
        proof {
            use_type_invariant(self);
        }
        let user = self.user.clone();
        let primary_group = self.primary_group.clone();
        proof {
            assert(user@.labels.len() == self.user@.labels.len());
            assert(primary_group@.labels.len() == self.primary_group@.labels.len());
        }
        AccountAccess { user, primary_group, super_user: self.super_user, inner: self.inner.clone() }
    }
}

impl<A: Access> Access for AccountAccess<A> {
    type Job = A::Job;

    type Resource = A::Resource;

    type Backend = A::Backend;

    type Peer = A::Peer;

    fn who_am_i(&self) -> (id: &str)
        ensures
            id@ == self.user_block().labels[1],
    {
        self.user_id()
    }

    fn default_group(&self) -> (id: &str)
        ensures
            id@ == self.group_block().labels[1],
    {
        self.primary_group_id()
    }

    fn shared_job(&self, job_id: &str) -> (out: AccessResult<A::Job>)
        ensures
            call_ensures(A::shared_job, (&self.inner(), job_id), out),
    {
        self.inner.shared_job(job_id)
    }

    fn backend(&self, rt: &BlockType) -> (out: AccessResult<A::Backend>)
        ensures
            call_ensures(A::backend, (&self.inner(), rt), out),
    {
        self.inner.backend(rt)
    }

    fn resource(&self, resource_ty: &BlockType) -> (out: AccessResult<A::Resource>)
        ensures
            self.is_super() ==> call_ensures(A::resource, (&self.inner(), resource_ty), out),
            !self.is_super() ==> (out matches Err(error) && is_forbidden(error)),
    {
        match self.ensure_super() {
            Err(error) => Err(error),
            Ok(_) => self.inner.resource(resource_ty),
        }
    }

    fn resources(&self, pat: &BlockType) -> (out: AccessResult<Vec<A::Resource>>)
        ensures
            call_ensures(A::resources, (&self.inner(), pat), out),
    {
        self.inner.resources(pat)
    }

    fn peer(&self) -> (out: AccessResult<A::Peer>)
        ensures
            call_ensures(A::peer, (&self.inner(),), out),
    {
        self.inner.peer()
    }

    fn acquire_lock(&self) -> (out: AccessResult<String>)
        ensures
            self.is_super() ==> call_ensures(A::acquire_lock, (&self.inner(),), out),
            !self.is_super() ==> (out matches Err(error) && is_forbidden(error)),
    {
        match self.ensure_super() {
            Err(error) => Err(error),
            Ok(_) => self.inner.acquire_lock(),
        }
    }

    fn release_lock(&self, lock_id: &str) -> (out: AccessResult<()>)
        ensures
            self.is_super() ==> call_ensures(A::release_lock, (&self.inner(), lock_id), out),
            !self.is_super() ==> (out matches Err(error) && is_forbidden(error)),
    {
        match self.ensure_super() {
            Err(error) => Err(error),
            Ok(_) => self.inner.release_lock(lock_id),
        }
    }

    fn list_jobs(&self) -> (out: AccessResult<Vec<A::Job>>)
        ensures
            match out {
                Ok(jobs) => exists|all: Vec<A::Job>|
                    #![trigger all@]
                    call_ensures(
                        A::list_jobs,
                        (&self.inner(),),
                        Ok::<Vec<A::Job>, AccessError>(all),
                    ) && owned_among(all@, jobs@, self.user_block().labels[1]),
                Err(error) => call_ensures(
                    A::list_jobs,
                    (&self.inner(),),
                    Err::<Vec<A::Job>, AccessError>(error),
                ),
            },
    {
        match self.inner.list_jobs() {
            Err(error) => Err(error),
            Ok(jobs) => {
                let ghost all = jobs;
                let own = own_jobs(jobs, self.user_id());
                assert(owned_among(all@, own@, self.user_block().labels[1]));
                Ok(own)
            },
        }
    }

    fn user(&self, user_id: &str) -> (out: AccessResult<Option<User>>)
        ensures
            call_ensures(A::user, (&self.inner(), user_id), out),
    {
        self.inner.user(user_id)
    }
}

/// Whether the item may say that it belongs to the user of the given name.
pub open spec fn says_user<J: Owned>(job: J, name: Seq<char>) -> bool {
    exists|said: &str| #![trigger said@] call_ensures(J::user, (&job,), said) && said@ == name
}

/// The items whose name, of `names` place by place, is `user`, in order.
pub open spec fn keep_named<J>(items: Seq<J>, names: Seq<Seq<char>>, user: Seq<char>) -> Seq<J>
    decreases items.len(),
{
    if items.len() == 0 || names.len() != items.len() {
        Seq::empty()
    } else if names.last() == user {
        keep_named(items.drop_last(), names.drop_last(), user).push(items.last())
    } else {
        keep_named(items.drop_last(), names.drop_last(), user)
    }
}

/// Whether `own` is what is left of `all` when every item is asked for its
/// user and those of `user` are kept, in order.
pub open spec fn owned_among<J: Owned>(all: Seq<J>, own: Seq<J>, user: Seq<char>) -> bool {
    exists|names: Seq<Seq<char>>|
        #![trigger names.len()]
        {
            &&& names.len() == all.len()
            &&& forall|i: int| 0 <= i < all.len() ==> says_user(all[i], #[trigger] names[i])
            &&& own == keep_named(all, names, user)
        }
}

/// The items that belong to `user`, in order.
pub fn own_jobs<J: Owned>(jobs: Vec<J>, user: &str) -> (own: Vec<J>)
    ensures
        owned_among(jobs@, own@, user@),
{
    let ghost all = jobs@;
    let mut rest = reversed(jobs);
    let mut own: Vec<J> = Vec::new();
    let ghost mut names: Seq<Seq<char>> = Seq::empty();
    proof {
        assert(all.take(0) =~= Seq::<J>::empty());
    }
    while rest.len() > 0
        invariant
            names.len() + rest@.len() == all.len(),
            forall|j: int| 0 <= j < rest@.len() ==> #[trigger] rest@[j] == all[all.len() - 1 - j],
            forall|i: int| 0 <= i < names.len() ==> says_user(all[i], #[trigger] names[i]),
            own@ == keep_named(all.take(names.len() as int), names, user@),
        decreases rest.len(),
    {
        let ghost at = names.len() as int;
        let ghost last = rest@.len() - 1;
        let job = rest.pop().unwrap();
        assert(job == all[all.len() - 1 - last]);
        let said = job.user();
        let ghost said_view = said@;
        let keep = str_eq(said, user);
        proof {
            assert(says_user(all[at], said_view));
            let before = names;
            names = names.push(said_view);
            assert(names.drop_last() =~= before);
            assert(all.take(at + 1).drop_last() =~= all.take(at));
            assert(all.take(at + 1).last() == job);
        }
        if keep {
            own.push(job);
        }
    }
    proof {
        assert(all.take(names.len() as int) =~= all);
    }
    own
}

/// Whether two texts are the same.
pub fn str_eq(a: &str, b: &str) -> (same: bool)
    ensures
        same == (a@ == b@),
{
    let n = a.unicode_len();
    if n != b.unicode_len() {
        return false;
    }
    let mut i: usize = 0;
    while i < n
        invariant
            i <= n,
            n == a@.len(),
            n == b@.len(),
            forall|j: int| 0 <= j < i ==> a@[j] == b@[j],
        decreases n - i,
    {
        if a.get_char(i) != b.get_char(i) {
            return false;
        }
        i += 1;
    }
    assert(a@ =~= b@);
    true
}

/// Whom a token speaks of.
#[derive(Debug, PartialEq, Eq)]
pub enum Subject {
    /// A name.
    Text(String),
    /// An address.
    Uri(String),
}

/// A subject as plain sequences of characters.
pub enum SubjectView {
    Text(Seq<char>),
    Uri(Seq<char>),
}

impl View for Subject {
    type V = SubjectView;

    open spec fn view(&self) -> SubjectView {
        match self {
            Subject::Text(text) => SubjectView::Text(text@),
            Subject::Uri(text) => SubjectView::Uri(text@),
        }
    }
}

/// The error of `base64::decode`.
#[verifier::external_type_specification]
#[verifier::external_body]
pub struct ExDecodeError(base64::DecodeError);

/// The error of `serde_json`.
#[verifier::external_type_specification]
#[verifier::external_body]
pub struct ExJsonError(serde_json::Error);

/// The error of `regex`.
#[verifier::external_type_specification]
#[verifier::external_body]
pub struct ExRegexError(regex::Error);

/// The bytes that a text in base 64 stands for, with the standard alphabet
/// and padding; none where the text is not in base 64.
pub uninterp spec fn base64_decoded(text: Seq<char>) -> Option<Seq<u8>>;

/// The subject of the registered claims that the bytes are in JSON: none
/// where the bytes are no such claims, and no subject where the claims
/// name none. Of a member that stands twice the last is taken.
pub uninterp spec fn claims_subject(bytes: Seq<u8>) -> Option<Option<SubjectView>>;

/// The whole number that stands under `key` in the JSON that the bytes
/// are: nothing where the bytes are no JSON, and no number where the JSON
/// is no object, has no such member, or has one that is no whole number
/// of 64 bits with a sign. Of a member that stands twice the last is taken.
pub uninterp spec fn json_integer(bytes: Seq<u8>, key: Seq<char>) -> Option<Option<i64>>;

/// The whole number that stands at `place`, counted from 0, in the JSON
/// that the bytes are: nothing where the bytes are no JSON, and no number
/// where the JSON is no list, is too short, or has there what is no whole
/// number of 64 bits with a sign.
pub uninterp spec fn json_integer_at(bytes: Seq<u8>, place: nat) -> Option<Option<i64>>;

/// The text in which the first match of the pattern is replaced, with
/// `$` and a number in the replacement standing for a group of the match;
/// none where the pattern is no regular expression.
pub uninterp spec fn regex_replaced(
    pattern: Seq<char>,
    text: Seq<char>,
    replacement: Seq<char>,
) -> Option<Seq<char>>;

/// Whether `biscuit` takes the token for a JSON web token that is signed,
/// RSA with SHA-256, under the public key, given in DER: three parts, a
/// header that names that way of signing, and a signature that is good.
/// What the claims say is not looked at.
pub uninterp spec fn rs256_verifies(token: Seq<char>, public_key: Seq<u8>) -> bool;

/// Decodes base 64 with `base64::decode`. The result is the decoding of
/// the text, and the error stands for a text that has none.
#[verifier::external_body]
fn decode_base64(text: &str) -> (out: Result<Vec<u8>, base64::DecodeError>)
    ensures
        match out {
            Ok(bytes) => base64_decoded(text@) == Some(bytes@),
            Err(_) => base64_decoded(text@).is_none(),
        },
{
    base64::decode(text)
}

/// Reads the whole number under a key with `serde_json`: `from_slice`
/// reads the bytes as a `Value`, `Value::get` finds the member and
/// `Value::as_i64` gives its number.
#[verifier::external_body]
fn read_integer(bytes: &Vec<u8>, key: &str) -> (out: Option<Option<i64>>)
    ensures
        out == json_integer(bytes@, key@),
{
    serde_json::from_slice::<serde_json::Value>(bytes.as_slice()).ok().map(
        |value| value.get(key).and_then(|member| member.as_i64()),
    )
}

/// Reads the whole number at a place of a list with `serde_json`:
/// `from_slice` reads the bytes as a `Value`, `Value::get` finds the item
/// and `Value::as_i64` gives its number.
#[verifier::external_body]
fn read_integer_at(bytes: &Vec<u8>, place: usize) -> (out: Option<Option<i64>>)
    ensures
        out == json_integer_at(bytes@, place as nat),
{
    serde_json::from_slice::<serde_json::Value>(bytes.as_slice()).ok().map(
        |value| value.get(place).and_then(|item| item.as_i64()),
    )
}

/// Reads registered claims with `serde_json` and hands out their subject,
/// which `biscuit` tells apart as a name or an address: `from_slice`
/// reads the bytes as a `Value` and `from_value` reads that as the claims.
///
/// `biscuit` turns each of the three times of the claims into a date and
/// does not return where the seconds are beyond what a date can hold, so
/// the times are to fit. It takes the claims as an object, or as a list
/// of their values in the order in which it declares them.
#[verifier::external_body]
fn parse_subject(bytes: &Vec<u8>) -> (out: Result<Option<Subject>, serde_json::Error>)
    requires
        times_fit(bytes@),
    ensures
        match out {
            Ok(subject) => claims_subject(bytes@) == Some(
                match subject {
                    Some(subject) => Some(subject@),
                    None => None,
                },
            ),
            Err(_) => claims_subject(bytes@).is_none(),
        },
{
    serde_json::from_slice::<serde_json::Value>(bytes.as_slice()).and_then(
        serde_json::from_value::<RegisteredClaims>,
    ).map(
        |claims| claims.subject.map(
            |subject| match subject {
                StringOrUri::String(text) => Subject::Text(text),
                StringOrUri::Uri(uri) => Subject::Uri(String::from(uri)),
            },
        ),
    )
}

/// Compiles the pattern with `Regex::new` and replaces its first match
/// with `Regex::replace`. The error stands for a pattern that does not
/// compile.
#[verifier::external_body]
fn regex_replace(pattern: &str, text: &str, replacement: &str) -> (out: Result<String, regex::Error>)
    ensures
        match out {
            Ok(replaced) => regex_replaced(pattern@, text@, replacement@) == Some(replaced@),
            Err(_) => regex_replaced(pattern@, text@, replacement@).is_none(),
        },
{
    Regex::new(pattern).map(|re| re.replace(text, replacement).into_owned())
}

/// Whether a character is another than `c`.
pub open spec fn other_than(c: char) -> spec_fn(char) -> bool {
    |x: char| x != c
}

/// The text without any occurrence of the character `c`.
pub fn without_char(text: &str, c: char) -> (out: String)
    ensures
        out@ == text@.filter(other_than(c)),
{
    let n = text.unicode_len();
    let mut out = String::new();
    let mut i: usize = 0;
    proof {
        reveal(Seq::filter);
        assert(text@.take(0) =~= Seq::<char>::empty());
    }
    while i < n
        invariant
            i <= n,
            n == text@.len(),
            out@ == text@.take(i as int).filter(other_than(c)),
        decreases n - i,
    {
        proof {
            reveal(Seq::filter);
            assert(text@.take(i + 1).drop_last() =~= text@.take(i as int));
            assert(text@.take(i + 1).last() == text@[i as int]);
        }
        if text.get_char(i) != c {
            let one = text.substring_char(i, i + 1);
            proof {
                assert(one@ =~= seq![text@[i as int]]);
                assert(out@ + one@ =~= out@.push(text@[i as int]));
            }
            out = out.concat(one);
        }
        i += 1;
    }
    proof {
        assert(text@.take(n as int) =~= text@);
    }
    out
}

/// Checks the signature of a token with `biscuit`: `Compact::new_encoded`
/// takes the token apart and `decode` checks it under the public key for
/// RSA with SHA-256. The claims are read as an object of any members, so
/// that nothing in them is turned into a date.
#[verifier::external_body]
fn verify_rs256(token: &str, public_key: &Vec<u8>) -> (good: bool)
    ensures
        good == rs256_verifies(token@, public_key@),
{
    biscuit::jws::Compact::<biscuit::Empty, biscuit::Empty>::new_encoded(token).decode(
        &Secret::PublicKey(public_key.clone()),
        SignatureAlgorithm::RS256,
    ).is_ok()
}

/// The token that a header of the form `Bearer <token>` carries.
pub open spec fn bearer_of(header: Seq<char>) -> Option<Seq<char>> {
    let prefix = "Bearer "@;
    if prefix.is_prefix_of(header) {
        Some(header.skip(prefix.len() as int))
    } else {
        None
    }
}

/// The token of an authorization header: what follows `Bearer `. A header
/// that does not begin so carries none.
pub fn bearer_token(header: &str) -> (token: Option<&str>)
    ensures
        match token {
            Some(token) => bearer_of(header@) == Some(token@),
            None => bearer_of(header@).is_none(),
        },
{
    let prefix = "Bearer ";
    let n = prefix.unicode_len();
    let len = header.unicode_len();
    if len < n {
        return None;
    }
    if !str_eq(header.substring_char(0, n), prefix) {
        return None;
    }
    let token = header.substring_char(n, len);
    proof {
        assert(token@ =~= header@.skip(n as int));
    }
    Some(token)
}

/// Whether the first dot of the text stands at `i`.
pub open spec fn first_dot_at(text: Seq<char>, i: int) -> bool {
    &&& 0 <= i < text.len()
    &&& text[i] == '.'
    &&& forall|j: int| 0 <= j < i ==> text[j] != '.'
}

/// The place of the first dot of the text, or its length where it has none.
pub open spec fn first_dot(text: Seq<char>) -> int {
    if exists|i: int| first_dot_at(text, i) {
        choose|i: int| first_dot_at(text, i)
    } else {
        text.len() as int
    }
}

/// The second of the parts of a token that dots divide: its claims. A
/// token without a dot has none.
pub open spec fn claims_of(token: Seq<char>) -> Option<Seq<char>> {
    let dot = first_dot(token);
    if dot == token.len() {
        None
    } else {
        let rest = token.skip(dot + 1);
        Some(rest.take(first_dot(rest)))
    }
}

/// The place of the first dot of the text from `from` on, or the length
/// of the text where none follows.
fn find_dot(text: &str, from: usize) -> (at: usize)
    requires
        from <= text@.len(),
    ensures
        from <= at <= text@.len(),
        at - from == first_dot(text@.skip(from as int)),
{
    let n = text.unicode_len();
    let ghost rest = text@.skip(from as int);
    let mut i: usize = from;
    while i < n
        invariant
            from <= i <= n,
            n == text@.len(),
            rest == text@.skip(from as int),
            forall|j: int| 0 <= j < i - from ==> rest[j] != '.',
        decreases n - i,
    {
        if text.get_char(i) == '.' {
            proof {
                assert(rest[i - from] == '.');
                assert(first_dot_at(rest, i - from));
                let c = choose|c: int| first_dot_at(rest, c);
                if c < i - from {
                    assert(rest[c] != '.');
                }
            }
            return i;
        }
        i += 1;
    }
    proof {
        if exists|c: int| first_dot_at(rest, c) {
            let c = choose|c: int| first_dot_at(rest, c);
            assert(rest[c] != '.');
        }
    }
    n
}

/// The claims of a token: what stands between its first dot and its
/// second, or its end.
pub fn claims_segment(token: &str) -> (claims: Option<&str>)
    ensures
        match claims {
            Some(claims) => claims_of(token@) == Some(claims@),
            None => claims_of(token@).is_none(),
        },
{
    let n = token.unicode_len();
    proof {
        assert(token@.skip(0) =~= token@);
    }
    let dot = find_dot(token, 0);
    if dot == n {
        return None;
    }
    let end = find_dot(token, dot + 1);
    let claims = token.substring_char(dot + 1, end);
    proof {
        let rest = token@.skip(dot + 1);
        assert(claims@ =~= rest.take(first_dot(rest)));
    }
    Some(claims)
}

/// A refusal of the given kind for the given reason.
pub fn refuse(kind: AccessErrorKind, message: &str) -> (error: AccessError)
    ensures
        error.kind == kind,
        error.message@ == message@,
{
    AccessError { kind, message: message.to_owned() }
}

/// A refusal as plain values.
pub open spec fn refusal(kind: AccessErrorKind, message: Seq<char>) -> (AccessErrorKind, Seq<char>) {
    (kind, message)
}

/// An outcome as plain values.
pub open spec fn outcome<T: View>(out: AccessResult<T>) -> Result<T::V, (AccessErrorKind, Seq<char>)> {
    match out {
        Ok(value) => Ok(value@),
        Err(error) => Err((error.kind, error.message@)),
    }
}

/// The user that parsed claims name: the subject, which is to be there
/// and to be a name.
pub open spec fn subject_name(parsed: Option<Option<SubjectView>>) -> Result<
    Seq<char>,
    (AccessErrorKind, Seq<char>),
> {
    match parsed {
        None => Err(refusal(AccessErrorKind::BadRequest, "invalid JSON claims set"@)),
        Some(None) => Err(refusal(AccessErrorKind::BadRequest, "claim subject cannot be null"@)),
        Some(Some(SubjectView::Uri(_))) => Err(
            refusal(AccessErrorKind::BadRequest, "claim subject cannot be a uri"@),
        ),
        Some(Some(SubjectView::Text(name))) => Ok(name),
    }
}

/// The user that claims name, given what reading them gave: the subject,
/// or none, or nothing where they could not be read.
pub fn read_subject(parsed: Option<Option<Subject>>) -> (name: AccessResult<String>)
    ensures
        outcome(name) == subject_name(
            match parsed {
                Some(Some(subject)) => Some(Some(subject@)),
                Some(None) => Some(None),
                None => None,
            },
        ),
{
    match parsed {
        None => Err(refuse(AccessErrorKind::BadRequest, "invalid JSON claims set")),
        Some(None) => Err(refuse(AccessErrorKind::BadRequest, "claim subject cannot be null")),
        Some(Some(Subject::Uri(_))) => Err(
            refuse(AccessErrorKind::BadRequest, "claim subject cannot be a uri"),
        ),
        Some(Some(Subject::Text(name))) => Ok(name),
    }
}

/// The least number of seconds since 1970 that a date can hold: the first
/// second of the year 262143 before the common era.
pub const MIN_CLAIM_TIME: i64 = -8_334_601_228_800;

/// The greatest number of seconds since 1970 that a date can hold: the
/// last second of the year 262142.
pub const MAX_CLAIM_TIME: i64 = 8_210_266_876_799;

/// Whether what was found under the key of a time can be held by a date:
/// a whole number is to lie between the least and the greatest.
pub open spec fn time_fits(found: Option<Option<i64>>) -> bool {
    match found {
        Some(Some(seconds)) => MIN_CLAIM_TIME <= seconds <= MAX_CLAIM_TIME,
        _ => true,
    }
}

/// The place of the expiry where claims are written as a list: after the
/// issuer, the subject and the audience.
pub const EXPIRY_PLACE: usize = 3;

/// The place, in such a list, of the time before which a token is not good.
pub const NOT_BEFORE_PLACE: usize = 4;

/// The place, in such a list, of the time of issue.
pub const ISSUED_AT_PLACE: usize = 5;

/// Whether the three times of the claims that the bytes are, where they
/// are whole numbers, can be held by dates: the expiry, the time before
/// which the token is not good, and the time of issue, each under its
/// key in an object or at its place in a list.
pub open spec fn times_fit(bytes: Seq<u8>) -> bool {
    &&& time_fits(json_integer(bytes, "exp"@))
    &&& time_fits(json_integer(bytes, "nbf"@))
    &&& time_fits(json_integer(bytes, "iat"@))
    &&& time_fits(json_integer_at(bytes, EXPIRY_PLACE as nat))
    &&& time_fits(json_integer_at(bytes, NOT_BEFORE_PLACE as nat))
    &&& time_fits(json_integer_at(bytes, ISSUED_AT_PLACE as nat))
}

/// Whether what was found under the key of a time can be held by a date.
pub fn check_time(found: Option<Option<i64>>) -> (fits: bool)
    ensures
        fits == time_fits(found),
{
    match found {
        Some(Some(seconds)) => MIN_CLAIM_TIME <= seconds && seconds <= MAX_CLAIM_TIME,
        _ => true,
    }
}

/// Whether the three times of the claims can be held by dates.
pub fn check_times(bytes: &Vec<u8>) -> (fit: bool)
    ensures
        fit == times_fit(bytes@),
{
    check_time(read_integer(bytes, "exp")) && check_time(read_integer(bytes, "nbf")) && check_time(
        read_integer(bytes, "iat"),
    ) && check_time(read_integer_at(bytes, EXPIRY_PLACE)) && check_time(
        read_integer_at(bytes, NOT_BEFORE_PLACE),
    ) && check_time(read_integer_at(bytes, ISSUED_AT_PLACE))
}

/// The user that a token names: the subject of its claims, which are its
/// second part, in base 64 and JSON. Claims with a time that no date can
/// hold are refused.
pub open spec fn token_user(token: Seq<char>) -> Result<Seq<char>, (AccessErrorKind, Seq<char>)> {
    match claims_of(token) {
        None => Err(refusal(AccessErrorKind::BadRequest, "no claims in bearer token"@)),
        Some(claims) => match base64_decoded(claims) {
            None => Err(refusal(AccessErrorKind::BadRequest, "claims not valid base64"@)),
            Some(bytes) => if times_fit(bytes) {
                subject_name(claims_subject(bytes))
            } else {
                Err(refusal(AccessErrorKind::BadRequest, "claim times out of range"@))
            },
        },
    }
}

/// Reads from a token the name of the user that it speaks of. The
/// signature is not looked at.
pub fn token_subject(token: &str) -> (name: AccessResult<String>)
    ensures
        outcome(name) == token_user(token@),
{
    let claims = match claims_segment(token) {
        Some(claims) => claims,
        None => {
            return Err(refuse(AccessErrorKind::BadRequest, "no claims in bearer token"));
        },
    };
    let bytes = match decode_base64(claims) {
        Ok(bytes) => bytes,
        Err(_) => {
            return Err(refuse(AccessErrorKind::BadRequest, "claims not valid base64"));
        },
    };
    if !check_times(&bytes) {
        return Err(refuse(AccessErrorKind::BadRequest, "claim times out of range"));
    }
    let parsed = match parse_subject(&bytes) {
        Ok(subject) => Some(subject),
        Err(_) => None,
    };
    read_subject(parsed)
}

/// The pattern of a key in PEM: a line that begins it, lines of base 64,
/// and a line that ends it.
pub const PEM_REGEX: &'static str =
    "(-----BEGIN .*-----\n)((?:(?:[A-Za-z0-9+/]{4})*(?:[A-Za-z0-9+/]{2}==|[A-Za-z0-9+/]{3}=)*\n)+)(-----END .*-----)";

/// Why a text in PEM gave no key.
#[derive(Clone, Copy, Debug, PartialEq, Eq, Structural)]
pub enum KeyError {
    /// The pattern for the lines is no regular expression.
    Pattern,
    /// What stands between the lines is not in base 64.
    Encoding,
}

/// The key that a text holds between the lines that `pattern` takes for
/// its beginning and its end: what the second group of the first match
/// stands for in base 64, line breaks apart. A text that the pattern does
/// not match is taken for the lines themselves.
pub open spec fn framed_key(pattern: Seq<char>, pem: Seq<char>) -> Result<Seq<u8>, KeyError> {
    match regex_replaced(pattern, pem, "$2"@) {
        None => Err(KeyError::Pattern),
        Some(body) => match base64_decoded(body.filter(other_than('\n'))) {
            None => Err(KeyError::Encoding),
            Some(bytes) => Ok(bytes),
        },
    }
}

/// The key that a text in PEM holds: what its lines of base 64 stand for.
pub open spec fn pem_key(pem: Seq<char>) -> Result<Seq<u8>, KeyError> {
    framed_key(PEM_REGEX@, pem)
}

/// The key that a text holds between the lines that `pattern` takes for
/// its beginning and its end.
pub fn key_from_frame(pattern: &str, pem: &str) -> (key: Result<Vec<u8>, KeyError>)
    ensures
        match key {
            Ok(bytes) => framed_key(pattern@, pem@) == Ok::<Seq<u8>, KeyError>(bytes@),
            Err(error) => framed_key(pattern@, pem@) == Err::<Seq<u8>, KeyError>(error),
        },
{
    let pem_clean = match regex_replace(pattern, pem, "$2") {
        Ok(text) => text,
        Err(_) => {
            return Err(KeyError::Pattern);
        },
    };
    let base64_body = without_char(pem_clean.as_str(), '\n');
    match decode_base64(base64_body.as_str()) {
        Ok(bytes) => Ok(bytes),
        Err(_) => Err(KeyError::Encoding),
    }
}

/// The public key, in DER, that a text in PEM holds.
pub fn pem_to_public_key(pem: &str) -> (key: Result<Vec<u8>, KeyError>)
    ensures
        match key {
            Ok(bytes) => pem_key(pem@) == Ok::<Seq<u8>, KeyError>(bytes@),
            Err(error) => pem_key(pem@) == Err::<Seq<u8>, KeyError>(error),
        },
{
    key_from_frame(PEM_REGEX, pem)
}

/// Whether the key that the text in PEM holds makes the token good.
pub open spec fn key_admits(token: Seq<char>, pem: Seq<char>) -> bool {
    pem_key(pem) matches Ok(key) && rs256_verifies(token, key)
}

/// Whether one of the keys makes the token good.
pub open spec fn some_key_admits(token: Seq<char>, keys: Seq<Seq<char>>) -> bool {
    exists|i: int| 0 <= i < keys.len() && key_admits(token, #[trigger] keys[i])
}

/// Whether the token is signed with one of the keys, each given in PEM. A
/// text that holds no key counts for nothing.
pub fn has_valid_key(token: &str, keys: &Vec<String>) -> (good: bool)
    ensures
        good == some_key_admits(token@, segments_view(keys@)),
{
    let ghost pems = segments_view(keys@);
    let mut i: usize = 0;
    while i < keys.len()
        invariant
            i <= keys.len(),
            pems == segments_view(keys@),
            forall|j: int| 0 <= j < i ==> !key_admits(token@, #[trigger] pems[j]),
        decreases keys.len() - i,
    {
        assert(pems[i as int] == keys@[i as int]@);
        match pem_to_public_key(keys[i].as_str()) {
            Ok(key) => {
                if verify_rs256(token, &key) {
                    assert(key_admits(token@, pems[i as int]));
                    return true;
                }
            },
            Err(_) => {},
        }
        i += 1;
    }
    false
}

/// What is known of a user, as plain values.
pub struct UserView {
    pub name: Seq<char>,
    pub public_keys: Seq<Seq<char>>,
    pub primary_group: Seq<char>,
    pub super_user: bool,
}

impl View for User {
    type V = UserView;

    open spec fn view(&self) -> UserView {
        UserView {
            name: self.name@,
            public_keys: segments_view(self.public_keys@),
            primary_group: self.primary_group@,
            super_user: self.super_user,
        }
    }
}

/// The record of the user that was looked up: it is to be found, and the
/// node is to be able to look.
pub fn user_record(found: AccessResult<Option<User>>) -> (record: AccessResult<User>)
    ensures
        match found {
            Err(_) => outcome(record) == Err::<UserView, (AccessErrorKind, Seq<char>)>(
                refusal(AccessErrorKind::Unavailable, "could not look for user"@),
            ),
            Ok(None) => outcome(record) == Err::<UserView, (AccessErrorKind, Seq<char>)>(
                refusal(AccessErrorKind::BadRequest, "user not found"@),
            ),
            Ok(Some(user)) => record == Ok::<User, AccessError>(user),
        },
{
    match found {
        Err(_) => Err(refuse(AccessErrorKind::Unavailable, "could not look for user")),
        Ok(None) => Err(refuse(AccessErrorKind::BadRequest, "user not found")),
        Ok(Some(user)) => Ok(user),
    }
}

/// The block type of the user of the given name.
pub open spec fn user_block_of(user_id: Seq<char>) -> BlockTypeView {
    BlockTypeView { kind: "resource"@, labels: seq!["user"@, user_id] }
}

/// The group of a user as a block type: what the text of the record names,
/// where that has a second label.
pub open spec fn group_block_of(record: UserView) -> Option<BlockTypeView> {
    match parsed_block(record.primary_group) {
        Some(block) => if block.labels.len() >= 2 {
            Some(block)
        } else {
            None
        },
        None => None,
    }
}

/// Whether the bearer of the token is let in as the user of the record,
/// and if not, why not: the group of the record is to be a block type with
/// a name, and one of the keys of the record is to make the token good.
pub open spec fn admission(token: Seq<char>, user_id: Seq<char>, record: UserView) -> Result<
    BlockTypeView,
    (AccessErrorKind, Seq<char>),
> {
    match group_block_of(record) {
        None => Err(
            refusal(AccessErrorKind::Unavailable, "invalid primary group "@ + record.primary_group),
        ),
        Some(group) => if some_key_admits(token, record.public_keys) {
            Ok(group)
        } else {
            Err(
                refusal(
                    AccessErrorKind::BadRequest,
                    "no valid key for user_id `"@ + user_id + "`"@,
                ),
            )
        },
    }
}

/// What gives access to accounts: it finds out who bears a token and
/// narrows the access `inner` to what that user may do.
pub struct AccountAccessProvider<A> {
    inner: A,
}

impl<A: Access + Clone> Clone for AccountAccessProvider<A> {
    /// The provider over a clone of the access that it narrows.
    fn clone(&self) -> (provider: AccountAccessProvider<A>)
        ensures
            cloned(self.inner(), provider.inner()),
    {
        AccountAccessProvider { inner: self.inner.clone() }
    }
}

impl<A: Access + Clone> AccountAccessProvider<A> {
    /// The access that is narrowed for each user.
    pub closed spec fn inner(self) -> A {
        self.inner
    }

    /// The provider over the access `inner`.
    pub fn new(inner: A) -> (provider: AccountAccessProvider<A>)
        ensures
            provider.inner() == inner,
    {
        AccountAccessProvider { inner }
    }

    /// Lets the bearer of the token in as the user of the given name and
    /// record, where the record allows it.
    pub fn grant(&self, token: &str, user_id: &str, record: User) -> (access: AccessResult<
        AccountAccess<A>,
    >)
        ensures
            match access {
                Ok(access) => {
                    &&& admission(token@, user_id@, record@) == Ok::<
                        BlockTypeView,
                        (AccessErrorKind, Seq<char>),
                    >(access.group_block())
                    &&& access.user_block() == user_block_of(user_id@)
                    &&& access.is_super() == record.super_user
                    &&& cloned(self.inner(), access.inner())
                },
                Err(error) => admission(token@, user_id@, record@) == Err::<
                    BlockTypeView,
                    (AccessErrorKind, Seq<char>),
                >((error.kind, error.message@)),
            },
    {
        let mut labels: Vec<String> = Vec::new();
        labels.push("user".to_owned());
        labels.push(user_id.to_owned());
        let user = BlockType::new("resource", labels);
        proof {
            assert(user@.labels =~= seq!["user"@, user_id@]);
        }
        let access = match BlockType::parse(record.primary_group.as_str()) {
            Some(primary_group) => AccountAccess::new(
                user,
                primary_group,
                record.super_user,
                self.inner.clone(),
            ),
            None => None,
        };
        match access {
            None => {
                let message = "invalid primary group ".to_owned().concat(record.primary_group.as_str());
                Err(AccessError { kind: AccessErrorKind::Unavailable, message })
            },
            Some(access) => {
                if has_valid_key(token, &record.public_keys) {
                    Ok(access)
                } else {
                    let message = "no valid key for user_id `".to_owned().concat(user_id).concat("`");
                    Err(AccessError { kind: AccessErrorKind::BadRequest, message })
                }
            },
        }
    }

    /// Whether `access` is what asking for the user named `user_id` and
    /// going by the answer may give the bearer of `token`.
    pub open spec fn elevated(
        self,
        token: Seq<char>,
        user_id: Seq<char>,
        access: AccessResult<AccountAccess<A>>,
    ) -> bool {
        exists|asked: &str, found: AccessResult<Option<User>>|
            #![trigger call_ensures(A::user, (&self.inner(), asked), found)]
            {
                &&& asked@ == user_id
                &&& call_ensures(A::user, (&self.inner(), asked), found)
                &&& match found {
                    Err(_) => access matches Err(error) && error.kind
                        == AccessErrorKind::Unavailable && error.message@
                        == "could not look for user"@,
                    Ok(None) => access matches Err(error) && error.kind
                        == AccessErrorKind::BadRequest && error.message@ == "user not found"@,
                    Ok(Some(record)) => match access {
                        Ok(access) => {
                            &&& admission(token, user_id, record@) == Ok::<
                                BlockTypeView,
                                (AccessErrorKind, Seq<char>),
                            >(access.group_block())
                            &&& access.user_block() == user_block_of(user_id)
                            &&& access.is_super() == record.super_user
                            &&& cloned(self.inner(), access.inner())
                        },
                        Err(error) => admission(token, user_id, record@) == Err::<
                            BlockTypeView,
                            (AccessErrorKind, Seq<char>),
                        >((error.kind, error.message@)),
                    },
                }
            }
    }

    /// Finds out who bears the token and gives that user's access.
    ///
    /// The token names the user in its claims. The node is asked for the
    /// record of that user, and the bearer is let in where one of the
    /// keys of the record makes the token good. A token that names no
    /// user is refused before anything is asked.
    pub fn elevate(&self, token: &str) -> (access: AccessResult<AccountAccess<A>>)
        ensures
            match token_user(token@) {
                Err(refused) => access matches Err(error) && (error.kind, error.message@)
                    == refused,
                Ok(user_id) => self.elevated(token@, user_id, access),
            },
    {
        let user_id = match token_subject(token) {
            Ok(name) => name,
            Err(error) => {
                return Err(error);
            },
        };
        let asked = user_id.as_str();
        let found = self.inner.user(asked);
        assert(call_ensures(A::user, (&self.inner(), asked), found));
        match user_record(found) {
            Err(error) => Err(error),
            Ok(record) => self.grant(token, asked, record),
        }
    }
}

} // verus!
