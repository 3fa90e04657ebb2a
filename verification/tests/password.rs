use backend::password::{
    judge_strength, LoginData, PasswordRule, RegisterData, RegisterError, TryLogin,
    PASSWORD_PATTERN,
};
use rand_chacha::ChaCha8Rng;
use rand_core::SeedableRng;

fn form(pw: &str, pw2: &str) -> RegisterData {
    RegisterData { tag: "rider".to_string(), pw: pw.to_string(), pw2: pw2.to_string() }
}

#[test]
fn rule_compiles() {
    assert!(PasswordRule::new().is_ok());
    assert_eq!(PASSWORD_PATTERN, "^(?=.*?[A-Z])(?=.*?[a-z])(?=.*?[0-9]).{8,}$");
}

#[test]
fn rule_demands_length_cases_and_digit() {
    let rule = PasswordRule::new().unwrap();
    assert_eq!(rule.is_match("Abcdefg1").unwrap(), true);
    assert_eq!(rule.is_match("abcdefg1").unwrap(), false);
    assert_eq!(rule.is_match("ABCDEFG1").unwrap(), false);
    assert_eq!(rule.is_match("Abcdefgh").unwrap(), false);
    assert_eq!(rule.is_match("Abcde1").unwrap(), false);
    assert_eq!(rule.is_match("").unwrap(), false);
}

#[test]
fn mismatched_passwords_are_refused_first() {
    let rule = PasswordRule::new().unwrap();
    assert_eq!(form("Abcdefg1", "Abcdefg2").check(&rule), Err(RegisterError::PasswordsDontMatch));
    assert_eq!(form("weak", "other").check(&rule), Err(RegisterError::PasswordsDontMatch));
}

#[test]
fn weak_password_is_refused() {
    let rule = PasswordRule::new().unwrap();
    assert_eq!(form("weakpass", "weakpass").check(&rule), Err(RegisterError::WeakPassword));
}

#[test]
fn strong_password_passes() {
    let rule = PasswordRule::new().unwrap();
    assert_eq!(form("Str0ngPass", "Str0ngPass").check(&rule), Ok(()));
}

#[test]
fn judge_strength_of_each_answer() {
    assert_eq!(judge_strength(Ok(true)), Ok(()));
    assert_eq!(judge_strength(Ok(false)), Err(RegisterError::WeakPassword));
    let err = fancy_regex::Regex::new("(").unwrap_err();
    assert_eq!(judge_strength(Err(err)), Err(RegisterError::RegexProblem));
}

#[test]
fn messages_of_each_error() {
    assert_eq!(RegisterError::PasswordsDontMatch.message(), "passwords dont match");
    assert_eq!(RegisterError::RegexProblem.message(), "problem with regex");
    assert_eq!(RegisterError::WeakPassword.message(), "password didn't match requirements");
    assert_eq!(RegisterError::NameTaken.message(), "name already exists");
}

#[test]
fn registered_password_logs_in() {
    let data = form("Str0ngPass", "Str0ngPass");
    let mut rng = ChaCha8Rng::seed_from_u64(11);
    let (token, hash) = data.credentials(&mut rng);
    assert!(token.chars().all(|c| c.is_ascii_digit()));
    assert_ne!(hash, data.pw);
    let login = TryLogin { id: 1, hash };
    let attempt = LoginData { tag: "rider".to_string(), pw: "Str0ngPass".to_string() };
    assert!(login.test(&attempt.pw).is_some());
}

#[test]
fn wrong_password_does_not_log_in() {
    let data = form("Str0ngPass", "Str0ngPass");
    let mut rng = ChaCha8Rng::seed_from_u64(12);
    let (_, hash) = data.credentials(&mut rng);
    let login = TryLogin { id: 1, hash };
    assert!(login.test("Str0ngPasz").is_none());
}

#[test]
fn malformed_hash_does_not_log_in() {
    let login = TryLogin { id: 1, hash: "not a hash".to_string() };
    assert!(login.test("anything").is_none());
}

#[test]
fn known_argon2_hash_accepts_its_password() {
    let login = TryLogin {
        id: 2,
        hash: "$argon2i$v=19$m=65536,t=1,p=1$c29tZXNhbHQAAAAAAAAAAA$+r0d29hqEB0yasKr55ZgICsQGSkl0v0kgwhd+U3wyRo"
            .to_string(),
    };
    assert!(login.test("password").is_some());
    assert!(login.test("bogus").is_none());
}
