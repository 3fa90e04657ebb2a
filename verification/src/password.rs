//! Passwords: the strength rule a new password must meet, the checks of a
//! registration, and the hashing and checking of stored passwords.

use crate::token::{new_session_token, token_of};
use fancy_regex::Regex;
use rand_chacha::ChaCha8Rng;
use vstd::prelude::*;

verus! {

#[verifier::external_type_specification]
#[verifier::external_body]
pub struct ExRegex(Regex);

#[verifier::external_type_specification]
#[verifier::external_body]
pub struct ExRegexError(fancy_regex::Error);

#[verifier::external_type_specification]
#[verifier::external_body]
pub struct ExVerifyError(password_auth::VerifyError);

/// Whether `Regex::new` of fancy_regex accepts `pattern`.
pub uninterp spec fn fancy_regex_compiles(pattern: Seq<char>) -> bool;

/// What `Regex::is_match` of fancy_regex answers for the regex compiled
/// from `pattern` on `text`: `Some(found)`, or `None` where matching fails
/// (its backtracking limit is reached).
pub uninterp spec fn fancy_regex_is_match(pattern: Seq<char>, text: Seq<char>) -> Option<bool>;

/// Whether `password_auth::verify_password` accepts `password` against the
/// stored `hash`.
pub uninterp spec fn password_hash_accepts(password: Seq<char>, hash: Seq<char>) -> bool;

/// The strength rule of new passwords: at least eight characters, among
/// them an upper-case letter, a lower-case letter and a digit.
pub const PASSWORD_PATTERN: &'static str = "^(?=.*?[A-Z])(?=.*?[a-z])(?=.*?[0-9]).{8,}$";

/// A compiled password rule, with the pattern it was compiled from.
pub struct PasswordRule {
    regex: Regex,
    pattern: Ghost<Seq<char>>,
}

impl View for PasswordRule {
    type V = Seq<char>;

    closed spec fn view(&self) -> Seq<char> {
        self.pattern@
    }
}

/// Compiles `pattern` by `fancy_regex::Regex::new`, keeping the pattern
/// beside the compiled regex. Claims that compiling succeeds exactly for the
/// patterns that `fancy_regex_compiles` names.
#[verifier::external_body]
fn compile_rule(pattern: &str) -> (rule: Result<PasswordRule, fancy_regex::Error>)
    ensures
        rule is Ok <==> fancy_regex_compiles(pattern@),
        rule matches Ok(r) ==> r@ == pattern@,
{
    match Regex::new(pattern) {
        Ok(regex) => Ok(PasswordRule { regex, pattern: Ghost(pattern@) }),
        Err(e) => Err(e),
    }
}

/// Matches `text` against the rule by `fancy_regex::Regex::is_match`.
/// Claims the answer is the one `fancy_regex_is_match` names for the rule's
/// pattern and `text`, and an error exactly where that name is `None`.
#[verifier::external_body]
fn rule_is_match(rule: &PasswordRule, text: &str) -> (found: Result<bool, fancy_regex::Error>)
    ensures
        match found {
            Ok(b) => fancy_regex_is_match(rule@, text@) == Some(b),
            Err(_) => fancy_regex_is_match(rule@, text@) is None,
        },
{
    rule.regex.is_match(text)
}

/// Hashes `password` by `password_auth::generate_hash` with a fresh random
/// salt. The hash depends on the salt; all that is claimed is that
/// `verify_password` accepts the password against it, as the crate's
/// documentation and tests show. `generate_hash` panics where Argon2 refuses
/// the password, which it does for more than `u32::MAX` bytes; `requires`
/// leaves those out.
#[verifier::external_body]
fn generate_hash(password: &str) -> (hash: String)
    requires
        vstd::utf8::encode_utf8(password@).len() <= 0xFFFF_FFFF,
    ensures
        password_hash_accepts(password@, hash@),
{
    password_auth::generate_hash(password)
}

/// Checks `password` against a stored `hash` by
/// `password_auth::verify_password`. Claims success exactly where
/// `password_hash_accepts` holds.
#[verifier::external_body]
fn verify_password(password: &str, hash: &str) -> (ok: Result<(), password_auth::VerifyError>)
    ensures
        ok is Ok <==> password_hash_accepts(password@, hash@),
{
    password_auth::verify_password(password, hash)
}

impl PasswordRule {
    /// Compiles the strength rule of new passwords.
    pub fn new() -> (rule: Result<PasswordRule, fancy_regex::Error>)
        ensures
            rule is Ok <==> fancy_regex_compiles(PASSWORD_PATTERN@),
            rule matches Ok(r) ==> r@ == PASSWORD_PATTERN@,
    {
        compile_rule(PASSWORD_PATTERN)
    }

    /// Whether `password` meets the rule; `Err` where matching fails.
    pub fn is_match(&self, password: &str) -> (found: Result<bool, fancy_regex::Error>)
        ensures
            match found {
                Ok(b) => fancy_regex_is_match(self@, password@) == Some(b),
                Err(_) => fancy_regex_is_match(self@, password@) is None,
            },
    {
        rule_is_match(self, password)
    }
}

/// Why a registration is refused: the first three before anything is
/// stored, the last when the tag is already taken.
#[derive(Debug, Clone, Copy, PartialEq, Eq, Structural)]
pub enum RegisterError {
    PasswordsDontMatch,
    RegexProblem,
    WeakPassword,
    NameTaken,
}

impl RegisterError {
    /// The answer shown to the visitor.
    pub open spec fn text(self) -> Seq<char> {
        match self {
            RegisterError::PasswordsDontMatch => "passwords dont match"@,
            RegisterError::RegexProblem => "problem with regex"@,
            RegisterError::WeakPassword => "password didn't match requirements"@,
            RegisterError::NameTaken => "name already exists"@,
        }
    }

    pub fn message(&self) -> (m: &'static str)
        ensures
            m@ == self.text(),
    {
        match self {
            RegisterError::PasswordsDontMatch => "passwords dont match",
            RegisterError::RegexProblem => "problem with regex",
            RegisterError::WeakPassword => "password didn't match requirements",
            RegisterError::NameTaken => "name already exists",
        }
    }
}

/// The verdict on a password, given what matching it against the strength
/// rule answered (`None` where matching failed).
pub open spec fn strength_verdict(found: Option<bool>) -> Result<(), RegisterError> {
    match found {
        None => Err(RegisterError::RegexProblem),
        Some(false) => Err(RegisterError::WeakPassword),
        Some(true) => Ok(()),
    }
}

/// The verdict on a registration with password `pw`, repeated as `pw2`,
/// under the strength rule compiled from `pattern`: the repetition is
/// checked first, then the strength.
pub open spec fn registration_verdict(pw: Seq<char>, pw2: Seq<char>, pattern: Seq<char>) -> Result<
    (),
    RegisterError,
> {
    if pw != pw2 {
        Err(RegisterError::PasswordsDontMatch)
    } else {
        strength_verdict(fancy_regex_is_match(pattern, pw))
    }
}

/// Turns the answer of the strength rule into the registration's verdict.
pub fn judge_strength(found: Result<bool, fancy_regex::Error>) -> (verdict: Result<(), RegisterError>)
    ensures
        verdict == strength_verdict(
            match found {
                Ok(b) => Some(b),
                Err(_) => None,
            },
        ),
{
    match found {
        Err(_) => Err(RegisterError::RegexProblem),
        Ok(false) => Err(RegisterError::WeakPassword),
        Ok(true) => Ok(()),
    }
}

/// A registration form: the wanted tag and the password, typed twice.
#[derive(Debug)]
pub struct RegisterData {
    pub tag: String,
    pub pw: String,
    pub pw2: String,
}

/// A login form.
#[derive(Debug)]
pub struct LoginData {
    pub tag: String,
    pub pw: String,
}

impl RegisterData {
    /// Checks a registration before anything is stored: both passwords must
    /// agree, and the password must meet the strength rule.
    pub fn check(&self, rule: &PasswordRule) -> (verdict: Result<(), RegisterError>)
        ensures
            verdict == registration_verdict(self.pw@, self.pw2@, rule@),
            verdict is Ok <==> (self.pw@ == self.pw2@ && fancy_regex_is_match(rule@, self.pw@)
                == Some(true)),
            self.pw@ != self.pw2@ ==> verdict == Err::<(), RegisterError>(
                RegisterError::PasswordsDontMatch,
            ),
            self.pw@ == self.pw2@ && fancy_regex_is_match(rule@, self.pw@) == Some(false)
                ==> verdict == Err::<(), RegisterError>(RegisterError::WeakPassword),
            self.pw@ == self.pw2@ && fancy_regex_is_match(rule@, self.pw@) is None ==> verdict
                == Err::<(), RegisterError>(RegisterError::RegexProblem),
    {
        if self.pw != self.pw2 {
            return Err(RegisterError::PasswordsDontMatch);
        }
        judge_strength(rule.is_match(self.pw.as_str()))
    }

    /// The credentials of the new account: a fresh session token drawn from
    /// `rng`, and the hash of the password, which accepts the password.
    pub fn credentials(&self, rng: &mut ChaCha8Rng) -> (cred: (String, String))
        requires
            vstd::utf8::encode_utf8(self.pw@).len() <= 0xFFFF_FFFF,
        ensures
            exists|bytes: Seq<u8>| bytes.len() == 16 && cred.0@ == #[trigger] token_of(bytes),
            password_hash_accepts(self.pw@, cred.1@),
    {
        let token = new_session_token(rng);
        let pw = self.pw.as_str();
        let hash = generate_hash(pw);
        (token, hash)
    }
}

/// The stored login of a user: their id and password hash.
#[derive(Debug)]
pub struct TryLogin {
    pub id: i64,
    pub hash: String,
}

impl TryLogin {
    /// Whether the stored hash accepts `pw`.
    pub open spec fn accepts(self, pw: Seq<char>) -> bool {
        password_hash_accepts(pw, self.hash@)
    }

    /// `Some` exactly when the stored hash accepts `pw`.
    pub fn test(&self, pw: &str) -> (ok: Option<()>)
        ensures
            ok is Some <==> self.accepts(pw@),
    {
        verify_password(pw, self.hash.as_str()).ok()
    }
}

/// A password that was hashed at registration logs in against that hash.
pub proof fn lemma_registered_password_logs_in(data: RegisterData, hash: Seq<char>, login: TryLogin)
    requires
        password_hash_accepts(data.pw@, hash),
        login.hash@ == hash,
    ensures
        login.accepts(data.pw@),
{
}

/// A registration passes exactly when both passwords agree and the given
/// strength rule matches the password; agreeing passwords are judged by that
/// rule alone: a rule that does not match refuses them as weak, and a rule
/// whose matching fails refuses them as a regex problem.
pub proof fn lemma_registration_judged_by_rule(pw: Seq<char>, pw2: Seq<char>, pattern: Seq<char>)
    ensures
        registration_verdict(pw, pw2, pattern) is Ok <==> (pw == pw2 && fancy_regex_is_match(
            pattern,
            pw,
        ) == Some(true)),
        pw == pw2 && fancy_regex_is_match(pattern, pw) == Some(false) ==> registration_verdict(
            pw,
            pw2,
            pattern,
        ) == Err::<(), RegisterError>(RegisterError::WeakPassword),
        pw == pw2 && fancy_regex_is_match(pattern, pw) is None ==> registration_verdict(
            pw,
            pw2,
            pattern,
        ) == Err::<(), RegisterError>(RegisterError::RegexProblem),
{
}

/// Two passwords that differ never register: the repetition check comes
/// before the strength rule, whatever the rule answers.
pub proof fn lemma_mismatch_refused(pw: Seq<char>, pw2: Seq<char>, pattern: Seq<char>)
    requires
        pw != pw2,
    ensures
        registration_verdict(pw, pw2, pattern) == Err::<(), RegisterError>(RegisterError::PasswordsDontMatch),
{
}

} // verus!
