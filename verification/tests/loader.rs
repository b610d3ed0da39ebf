use std::path::PathBuf;
use std::time::Duration;

use std::cell::Cell;

use trading::loader::{
    can_shard, day_chart_name, first_found, minutes_chart_name, sign_message,
};
use trading::{
    sign, Credential, CredentialError, CredentialProvider, EnvCredentialProvider,
    FileCredentialProvider, LocalLoader, MultiCredentialProvider, RemoteLoader,
    StaticCredentialProvider,
};

fn credential(access: &str) -> Credential {
    Credential { access_key: access.to_string(), secret_key: "s".to_string() }
}

struct Broken;

impl CredentialProvider for Broken {
    fn credential(&self) -> Result<Option<Credential>, CredentialError> {
        Err(CredentialError::Failed)
    }
}

#[test]
fn requests_are_signed_with_a_double_digest() {
    assert_eq!("secret:/stocks:1700000000000", sign_message("secret", "/stocks", "1700000000000"));
    assert_eq!(
        "fd9ea54ab1e3083cca3ff48d5242f75a",
        sign("0.1.0", "secret", "/stocks", "1700000000000")
    );
    assert_eq!(sign("a", "k", "d", "t"), sign("b", "k", "d", "t"));
    assert_ne!(sign("a", "k", "d", "t"), sign("a", "k", "d", "u"));
    assert_eq!(32, sign("a", "", "", "").len());
}

#[test]
fn the_first_credential_wins() {
    let outcomes = vec![
        Err(CredentialError::Failed),
        Ok(None),
        Ok(Some(credential("first"))),
        Ok(Some(credential("second"))),
    ];
    assert_eq!("first", first_found(&outcomes, true).unwrap().unwrap().access_key);
    let none = vec![Err(CredentialError::Failed), Ok(None)];
    assert_eq!(Some(CredentialError::NotFound), first_found(&none, true).err());
    assert!(first_found(&none, false).unwrap().is_none());
    assert!(first_found(&vec![], false).unwrap().is_none());
    let chain = MultiCredentialProvider::new(
        vec![StaticCredentialProvider(credential("a")), StaticCredentialProvider(credential("b"))],
        true,
    );
    assert_eq!("a", chain.credential().unwrap().unwrap().access_key);
    let broken = MultiCredentialProvider::new(vec![Broken, Broken], false);
    assert!(broken.credential().unwrap().is_none());
    let required = MultiCredentialProvider::new(vec![Broken], true);
    assert_eq!(Some(CredentialError::NotFound), required.credential().err());
}

#[test]
fn remote_loader_is_built_step_by_step() {
    let loader = RemoteLoader::default();
    assert_eq!("http://127.0.0.1:18686/api/data", loader.host);
    assert_eq!(Some(Duration::from_secs(3)), loader.timeout);
    assert!(loader.credential.is_none());
    let loader = loader
        .with_host("http://example.test")
        .with_timeout(Duration::from_secs(9))
        .with_credential(credential("mine"));
    assert_eq!("http://example.test", loader.host);
    assert_eq!(Some(Duration::from_secs(9)), loader.timeout);
    assert_eq!("mine", loader.credential.as_ref().unwrap().access_key);
    let loader = loader.with_provider(StaticCredentialProvider(credential("other"))).unwrap();
    assert_eq!("other", loader.credential.as_ref().unwrap().access_key);
    assert_eq!("http://example.test", loader.host);
    assert!(loader.with_provider(Broken).is_err());
    let made = RemoteLoader::new("h", None, StaticCredentialProvider(credential("k"))).unwrap();
    assert_eq!("h", made.host);
    assert_eq!(None, made.timeout);
    assert_eq!("k", made.credential.unwrap().access_key);
    assert_eq!(Some(CredentialError::Failed), RemoteLoader::new("h", None, Broken).err());
    assert!(RemoteLoader::from_outcome("h", None, Ok(None)).unwrap().credential.is_none());
}

#[test]
fn sources_of_credentials_remember_where_to_look() {
    let env = EnvCredentialProvider::default();
    assert_eq!("TRADING_ACCESS_KEY", env.access_key_env());
    assert_eq!("TRADING_SECRET_KEY", env.secret_key_env());
    let env = EnvCredentialProvider::new("A", "B");
    assert_eq!("A", env.access_key_env());
    assert_eq!("B", env.secret_key_env());
    let file = FileCredentialProvider::new(PathBuf::from("/tmp/credential.json"));
    assert_eq!(&PathBuf::from("/tmp/credential.json"), file.path());
}

#[test]
fn files_lie_two_levels_down_by_symbol() {
    assert_eq!("stocks/day/60/04/600444.csv", day_chart_name("600444"));
    assert_eq!("stocks/minutes/60/18/601888", minutes_chart_name("601888"));
    assert_eq!("stocks/day/ab/cd/abcd.csv", day_chart_name("abcd"));
    let loader = LocalLoader::rooted(PathBuf::from("/data"));
    assert_eq!(PathBuf::from("/data/stocks/day/60/04/600444.csv"), loader.day_chart_path("600444"));
    assert_eq!(
        PathBuf::from("/data/stocks/minutes/60/04/600444"),
        loader.minutes_chart_dir("600444")
    );
    assert_eq!(PathBuf::from("/data/stocks.csv"), loader.stocks_path());
    assert_eq!(PathBuf::from("/data/x/y"), loader.storage("x/y"));
}

struct Counted<'a> {
    asked: &'a Cell<usize>,
    answer: Option<&'a str>,
}

impl<'a> CredentialProvider for Counted<'a> {
    fn credential(&self) -> Result<Option<Credential>, CredentialError> {
        self.asked.set(self.asked.get() + 1);
        Ok(self.answer.map(credential))
    }
}

#[test]
fn a_chain_stops_asking_at_the_first_credential() {
    let asked = Cell::new(0);
    let chain = MultiCredentialProvider::new(
        vec![
            Counted { asked: &asked, answer: None },
            Counted { asked: &asked, answer: Some("second") },
            Counted { asked: &asked, answer: Some("third") },
        ],
        true,
    );
    assert_eq!("second", chain.credential().unwrap().unwrap().access_key);
    assert_eq!(2, asked.get());
    let asked = Cell::new(0);
    let chain = MultiCredentialProvider::new(
        vec![Counted { asked: &asked, answer: None }, Counted { asked: &asked, answer: None }],
        false,
    );
    assert!(chain.credential().unwrap().is_none());
    assert_eq!(2, asked.get());
    let empty: MultiCredentialProvider<Broken> = MultiCredentialProvider::new(vec![], false);
    assert!(empty.credential().unwrap().is_none());
}

#[test]
fn the_answer_of_a_source_replaces_the_credential() {
    let loader = RemoteLoader::default().with_credential(credential("old"));
    let loader = loader.with_outcome(Ok(Some(credential("new")))).unwrap();
    assert_eq!("new", loader.credential.as_ref().unwrap().access_key);
    assert_eq!("http://127.0.0.1:18686/api/data", loader.host);
    assert_eq!(Some(Duration::from_secs(3)), loader.timeout);
    let loader = loader.with_outcome(Ok(None)).unwrap();
    assert!(loader.credential.is_none());
    assert_eq!(Some(CredentialError::Failed), loader.with_outcome(Err(CredentialError::Failed)).err());
    let loader = RemoteLoader::default().with_credential(credential("old"));
    let loader = loader.with_provider(Counted { asked: &Cell::new(0), answer: None }).unwrap();
    assert!(loader.credential.is_none());
}

#[test]
fn files_are_placed_by_the_bytes_of_the_symbol() {
    assert_eq!("stocks/day/é/é/éé12.csv", day_chart_name("éé12"));
    assert_eq!("stocks/minutes/é/é/éé", minutes_chart_name("éé"));
    assert_eq!("stocks/day/ab/é/abé.csv", day_chart_name("abé"));
    assert!(can_shard("600444"));
    assert!(can_shard("abcd"));
    assert!(can_shard("éé"));
    assert!(can_shard("éé12"));
    assert!(!can_shard("abc"));
    assert!(!can_shard(""));
    assert!(!can_shard("aéb1"));
    assert!(!can_shard("abc国"));
    assert!(!can_shard("国机通用"));
    let loader = LocalLoader::rooted(PathBuf::from("/data"));
    assert_eq!(PathBuf::from("/data/stocks/day/é/é/éé12.csv"), loader.day_chart_path("éé12"));
}
