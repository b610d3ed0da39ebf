//! What the sources of charts compute before and after they read: the places
//! of files, the signature of a request, and which credential to sign with.
use crate::error::CredentialError;
use crate::stock::GetSymbolCode;
use std::path::PathBuf;
use std::time::Duration;
use vstd::prelude::*;
use vstd::string::*;
use vstd::utf8::{decode_utf8, encode_utf8, is_char_boundary};

verus! {

/// Header that names the client.
pub const NAME: &'static str = "x-trading-name";

/// Header that carries the client's version.
pub const VERSION: &'static str = "x-trading-version";

/// Header that names the client's platform.
pub const PLATFORM: &'static str = "x-trading-platform";

/// Header that carries the access key.
pub const AK: &'static str = "x-trading-access-key";

/// Header that carries the signature.
pub const SIGN: &'static str = "x-trading-sign";

/// Header that carries the time of the request.
pub const TIMESTAMP: &'static str = "x-trading-timestamp";

/// A path of the standard library.
#[verifier::external_type_specification]
#[verifier::external_body]
pub struct ExPathBuf(std::path::PathBuf);

/// The lower-case hexadecimal text of the MD5 digest of the bytes of `text`.
pub uninterp spec fn md5_hex_of(text: Seq<char>) -> Seq<char>;

/// Calls `md5::compute` on the bytes of `text` and writes the digest in
/// lower-case hexadecimal, as its `LowerHex` does.
#[verifier::external_body]
pub(crate) fn md5_hex(text: &str) -> (r: String)
    ensures
        r@ == md5_hex_of(text@),
{
    format!("{:x}", md5::compute(text))
}

/// The path that `Path::join` of the standard library makes of `base` and
/// `append`: `base` with `append` adjoined, as the platform that the program
/// is built for joins paths.
pub uninterp spec fn joined_path(base: PathBuf, append: Seq<char>) -> PathBuf;

/// Calls `Path::join` of the standard library on `base` with `append`. The
/// result depends on the two of them alone; what it is, is named, not
/// spelled out.
#[verifier::external_body]
pub(crate) fn join_path(base: &PathBuf, append: &str) -> (r: PathBuf)
    ensures
        r == joined_path(*base, append@),
{
    base.join(append)
}

/// The span of time that `Duration::from_secs` of the standard library makes
/// of `count` whole seconds.
pub uninterp spec fn span_of_seconds(count: u64) -> Duration;

/// Calls `Duration::from_secs` of the standard library. The result depends
/// on `count` alone; it is named, not spelled out.
#[verifier::external_body]
pub(crate) fn seconds(count: u64) -> (r: Duration)
    ensures
        r == span_of_seconds(count),
{
    Duration::from_secs(count)
}

/// The text that is signed: secret key, data and time, with colons between.
pub open spec fn sign_text(secret_key: Seq<char>, data: Seq<char>, timestamp: Seq<char>) -> Seq<
    char,
> {
    secret_key + seq![':'] + data + seq![':'] + timestamp
}

/// The text that is signed for `data` at `timestamp` with `secret_key`.
pub fn sign_message(secret_key: &str, data: &str, timestamp: &str) -> (r: String)
    ensures
        r@ == sign_text(secret_key@, data@, timestamp@),
{
    proof {
        reveal_strlit(":");
    }
    let r = String::from_str(secret_key).concat(":").concat(data).concat(":").concat(timestamp);
    assert(r@ =~= sign_text(secret_key@, data@, timestamp@));
    r
}

/// The signature of `data` at `timestamp` with `secret_key`: the MD5 digest,
/// in hexadecimal, of the hexadecimal MD5 digest of the signed text.
pub fn sign(_version: &str, secret_key: &str, data: &str, timestamp: &str) -> (r: String)
    ensures
        r@ == md5_hex_of(md5_hex_of(sign_text(secret_key@, data@, timestamp@))),
{
    let message: String = sign_message(secret_key, data, timestamp);
    let once: String = md5_hex(message.as_str());
    md5_hex(once.as_str())
}

/// The keys a request is signed with.
#[derive(Debug)]
pub struct Credential {
    pub access_key: String,
    pub secret_key: String,
}

impl Clone for Credential {
    fn clone(&self) -> (r: Credential)
        ensures
            r == *self,
    {
        Credential { access_key: self.access_key.clone(), secret_key: self.secret_key.clone() }
    }
}

/// A source of credentials. It may have none, and it may fail.
pub trait CredentialProvider {
    fn credential(&self) -> Result<Option<Credential>, CredentialError>;
}

/// The source that has one credential, always.
pub struct StaticCredentialProvider(pub Credential);

impl CredentialProvider for StaticCredentialProvider {
    fn credential(&self) -> (r: Result<Option<Credential>, CredentialError>)
        ensures
            r == Ok::<Option<Credential>, CredentialError>(Some(self.0)),
    {
        Ok(Some(self.0.clone()))
    }
}

/// Where in the environment the two keys are kept.
pub struct EnvCredentialProvider {
    access_key_env: String,
    secret_key_env: String,
}

impl EnvCredentialProvider {
    /// The name of the variable that holds the access key.
    pub closed spec fn spec_access_key_env(self) -> Seq<char> {
        self.access_key_env@
    }

    /// The name of the variable that holds the secret key.
    pub closed spec fn spec_secret_key_env(self) -> Seq<char> {
        self.secret_key_env@
    }

    pub fn new(access_key_env: &str, secret_key_env: &str) -> (r: EnvCredentialProvider)
        ensures
            r.spec_access_key_env() == access_key_env@,
            r.spec_secret_key_env() == secret_key_env@,
    {
        EnvCredentialProvider {
            access_key_env: String::from_str(access_key_env),
            secret_key_env: String::from_str(secret_key_env),
        }
    }

    /// The name of the variable that holds the access key.
    pub fn access_key_env(&self) -> (r: &str)
        ensures
            r@ == self.spec_access_key_env(),
    {
        self.access_key_env.as_str()
    }

    /// The name of the variable that holds the secret key.
    pub fn secret_key_env(&self) -> (r: &str)
        ensures
            r@ == self.spec_secret_key_env(),
    {
        self.secret_key_env.as_str()
    }
}

impl Default for EnvCredentialProvider {
    fn default() -> (r: EnvCredentialProvider)
        ensures
            r.spec_access_key_env() == "TRADING_ACCESS_KEY"@,
            r.spec_secret_key_env() == "TRADING_SECRET_KEY"@,
    {
        EnvCredentialProvider::new("TRADING_ACCESS_KEY", "TRADING_SECRET_KEY")
    }
}

/// The file the credential is kept in.
pub struct FileCredentialProvider {
    path: PathBuf,
}

impl FileCredentialProvider {
    pub closed spec fn spec_path(self) -> PathBuf {
        self.path
    }

    pub fn new(path: PathBuf) -> (r: FileCredentialProvider)
        ensures
            r.spec_path() == path,
    {
        FileCredentialProvider { path }
    }

    pub fn path(&self) -> (r: &PathBuf)
        ensures
            *r == self.spec_path(),
    {
        &self.path
    }
}

/// The first credential among `outcomes`, what sources gave one after the
/// other; a source that failed or had none is passed over.
pub open spec fn first_credential(
    outcomes: Seq<Result<Option<Credential>, CredentialError>>,
) -> Option<Credential>
    decreases outcomes.len(),
{
    if outcomes.len() == 0 {
        None
    } else {
        match outcomes.first() {
            Ok(Some(credential)) => Some(credential),
            _ => first_credential(outcomes.drop_first()),
        }
    }
}

/// What a chain of sources gives, from what each of them gave: the first
/// credential; without one, nothing, or a failure where one must be found.
pub open spec fn chained(
    outcomes: Seq<Result<Option<Credential>, CredentialError>>,
    must_found: bool,
) -> Result<Option<Credential>, CredentialError> {
    match first_credential(outcomes) {
        Some(credential) => Ok(Some(credential)),
        None => if must_found {
            Err(CredentialError::NotFound)
        } else {
            Ok(None)
        },
    }
}

/// What a chain of sources gives, from what each of them gave.
pub fn first_found(
    outcomes: &Vec<Result<Option<Credential>, CredentialError>>,
    must_found: bool,
) -> (r: Result<Option<Credential>, CredentialError>)
    ensures
        r == chained(outcomes@, must_found),
{
    let mut i: usize = 0;
    assert(outcomes@.skip(0) =~= outcomes@);
    while i < outcomes.len()
        invariant
            i <= outcomes.len(),
            first_credential(outcomes@) == first_credential(outcomes@.skip(i as int)),
        decreases outcomes.len() - i,
    {
        assert(outcomes@.skip(i as int).first() == outcomes@[i as int]);
        assert(outcomes@.skip(i as int).drop_first() =~= outcomes@.skip(i + 1));
        match &outcomes[i] {
            Ok(Some(credential)) => {
                return Ok(Some(credential.clone()));
            },
            _ => {},
        }
        i = i + 1;
    }
    if must_found {
        Err(CredentialError::NotFound)
    } else {
        Ok(None)
    }
}

/// A chain of sources of credentials, asked one after the other.
pub struct MultiCredentialProvider<P: CredentialProvider> {
    providers: Vec<P>,
    must_found: bool,
}

impl<P: CredentialProvider> MultiCredentialProvider<P> {
    pub closed spec fn spec_providers(self) -> Seq<P> {
        self.providers@
    }

    pub closed spec fn spec_must_found(self) -> bool {
        self.must_found
    }

    pub fn new(providers: Vec<P>, must_found: bool) -> (r: MultiCredentialProvider<P>)
        ensures
            r.spec_providers() == providers@,
            r.spec_must_found() == must_found,
    {
        MultiCredentialProvider { providers, must_found }
    }
}

/// Whether `outcome` holds a credential.
pub open spec fn holds_credential(outcome: Result<Option<Credential>, CredentialError>) -> bool {
    outcome matches Ok(Some(_))
}

/// Whether `outcomes` are the answers of a chain of `count` sources that is
/// asked in turn until one has a credential: only the last answer may hold a
/// credential, and where it holds none, all sources were asked.
pub open spec fn asked_in_turn(
    outcomes: Seq<Result<Option<Credential>, CredentialError>>,
    count: nat,
) -> bool {
    &&& outcomes.len() <= count
    &&& forall|i: int| 0 <= i < outcomes.len() - 1 ==> !holds_credential(#[trigger] outcomes[i])
    &&& (outcomes.len() == count || (outcomes.len() > 0 && holds_credential(outcomes.last())))
}

impl<P: CredentialProvider> CredentialProvider for MultiCredentialProvider<P> {
    /// Asks the sources in turn until one has a credential, and gives what
    /// [`first_found`] gives for the answers taken.
    fn credential(&self) -> (r: Result<Option<Credential>, CredentialError>)
        ensures
            exists|outcomes: Seq<Result<Option<Credential>, CredentialError>>|
                asked_in_turn(outcomes, self.spec_providers().len()) && r == chained(
                    outcomes,
                    self.spec_must_found(),
                ),
    {
        let mut outcomes: Vec<Result<Option<Credential>, CredentialError>> = Vec::new();
        let mut found: bool = false;
        while outcomes.len() < self.providers.len() && !found
            invariant
                outcomes@.len() <= self.providers@.len(),
                forall|k: int|
                    0 <= k < outcomes@.len() - 1 ==> !holds_credential(#[trigger] outcomes@[k]),
                found == (outcomes@.len() > 0 && holds_credential(outcomes@.last())),
            decreases self.providers@.len() - outcomes@.len() + if found {
                0int
            } else {
                1int
            },
        {
            let answer: Result<Option<Credential>, CredentialError> =
                self.providers[outcomes.len()].credential();
            found = match &answer {
                Ok(Some(_)) => true,
                _ => false,
            };
            outcomes.push(answer);
        }
        let r = first_found(&outcomes, self.must_found);
        assert(asked_in_turn(outcomes@, self.spec_providers().len()) && r == chained(
            outcomes@,
            self.spec_must_found(),
        ));
        r
    }
}

/// The remote source of charts: where it is, what it signs with, and how
/// long it waits.
#[derive(Debug)]
pub struct RemoteLoader {
    pub host: String,
    pub credential: Option<Credential>,
    pub timeout: Option<Duration>,
}

impl Default for RemoteLoader {
    fn default() -> (r: RemoteLoader)
        ensures
            r.host@ == "http://127.0.0.1:18686/api/data"@,
            r.credential is None,
            r.timeout == Some(span_of_seconds(3)),
    {
        RemoteLoader {
            host: String::from_str("http://127.0.0.1:18686/api/data"),
            credential: None,
            timeout: Some(seconds(3)),
        }
    }
}

impl RemoteLoader {
    /// The source at `host` with what `outcome`, the answer of a source of
    /// credentials, holds; the failure of that source is the failure of this.
    pub fn from_outcome(
        host: &str,
        timeout: Option<Duration>,
        outcome: Result<Option<Credential>, CredentialError>,
    ) -> (r: Result<RemoteLoader, CredentialError>)
        ensures
            match outcome {
                Ok(credential) => r matches Ok(loader) && loader.host@ == host@ && loader.timeout
                    == timeout && loader.credential == credential,
                Err(e) => r == Err::<RemoteLoader, CredentialError>(e),
            },
    {
        match outcome {
            Ok(credential) => Ok(RemoteLoader { host: String::from_str(host), credential, timeout }),
            Err(e) => Err(e),
        }
    }

    /// The source at `host` that signs with the credential of `provider`.
    pub fn new<P: CredentialProvider>(host: &str, timeout: Option<Duration>, provider: P) -> (r:
        Result<RemoteLoader, CredentialError>)
        ensures
            r matches Ok(loader) ==> loader.host@ == host@ && loader.timeout == timeout,
    {
        RemoteLoader::from_outcome(host, timeout, provider.credential())
    }

    pub fn with_host(self, host: &str) -> (r: RemoteLoader)
        ensures
            r.host@ == host@,
            r.credential == self.credential,
            r.timeout == self.timeout,
    {
        RemoteLoader { host: String::from_str(host), credential: self.credential, timeout: self.timeout }
    }

    pub fn with_timeout(self, timeout: Duration) -> (r: RemoteLoader)
        ensures
            r.host == self.host,
            r.credential == self.credential,
            r.timeout == Some(timeout),
    {
        RemoteLoader { host: self.host, credential: self.credential, timeout: Some(timeout) }
    }

    /// The source with what `outcome`, the answer of a source of
    /// credentials, holds in place of its own credential, none included; the
    /// failure of that source is the failure of this.
    pub fn with_outcome(self, outcome: Result<Option<Credential>, CredentialError>) -> (r: Result<
        RemoteLoader,
        CredentialError,
    >)
        ensures
            match outcome {
                Ok(credential) => r matches Ok(loader) && loader.host == self.host
                    && loader.timeout == self.timeout && loader.credential == credential,
                Err(e) => r == Err::<RemoteLoader, CredentialError>(e),
            },
    {
        match outcome {
            Ok(credential) => Ok(
                RemoteLoader { host: self.host, credential, timeout: self.timeout },
            ),
            Err(e) => Err(e),
        }
    }

    /// The source with the credential of `provider` in place of its own:
    /// what [`RemoteLoader::with_outcome`] makes of the answer of `provider`.
    pub fn with_provider<P: CredentialProvider>(self, provider: P) -> (r: Result<
        RemoteLoader,
        CredentialError,
    >)
        ensures
            r matches Ok(loader) ==> loader.host == self.host && loader.timeout == self.timeout,
    {
        self.with_outcome(provider.credential())
    }

    pub fn with_credential(self, credential: Credential) -> (r: RemoteLoader)
        ensures
            r.host == self.host,
            r.credential == Some(credential),
            r.timeout == self.timeout,
    {
        RemoteLoader { host: self.host, credential: Some(credential), timeout: self.timeout }
    }
}

/// The text whose UTF-8 encoding is the bytes of `text` from `from` up to,
/// not including, `to`.
pub open spec fn byte_piece(text: Seq<char>, from: int, to: int) -> Seq<char> {
    decode_utf8(encode_utf8(text).subrange(from, to))
}

/// Whether the files of `symbol` have a place: the symbol has four bytes at
/// least, and its first two and its next two bytes are whole characters.
pub open spec fn has_shard(symbol: Seq<char>) -> bool {
    &&& encode_utf8(symbol).len() >= 4
    &&& is_char_boundary(encode_utf8(symbol), 2)
    &&& is_char_boundary(encode_utf8(symbol), 4)
}

/// Where below the base directory the file of `symbol` lies in the tree of
/// `kind`: two levels down, by the first two and the next two bytes of the
/// symbol.
pub open spec fn shard_text(kind: Seq<char>, symbol: Seq<char>, suffix: Seq<char>) -> Seq<char> {
    kind + byte_piece(symbol, 0, 2) + seq!['/'] + byte_piece(symbol, 2, 4) + seq!['/'] + symbol
        + suffix
}

/// Whether the files of `symbol` have a place.
pub fn can_shard(symbol: &str) -> (r: bool)
    ensures
        r == has_shard(symbol@),
{
    broadcast use vstd::utf8::encode_utf8_valid_utf8;

    proof {
        if symbol.spec_bytes().len() < 4 {
            assert(!is_char_boundary(symbol.spec_bytes(), 4));
        }
        if symbol.spec_bytes().len() > usize::MAX {
            assert(symbol.spec_bytes().len() >= 4);
        }
    }
    symbol.is_char_boundary(2) && symbol.is_char_boundary(4)
}

/// The place of the file of `symbol` in the tree of `kind`.
pub fn shard_name(kind: &str, symbol: &str, suffix: &str) -> (r: String)
    requires
        has_shard(symbol@),
    ensures
        r@ == shard_text(kind@, symbol@, suffix@),
{
    broadcast use
        vstd::utf8::encode_utf8_valid_utf8,
        vstd::utf8::encode_utf8_decode_utf8,
        vstd::utf8::valid_utf8_split,
        vstd::utf8::is_char_boundary_start_end_of_seq,
    ;

    proof {
        reveal_strlit("/");
    }
    let ghost bytes = symbol.spec_bytes();
    let (first, rest) = symbol.split_at(2);
    proof {
        let tail = rest.spec_bytes();
        assert(tail =~= bytes.subrange(2, bytes.len() as int));
        if tail.len() > 2 {
            vstd::utf8::is_char_boundary_iff_not_is_continuation_byte(bytes, 4);
            assert(tail[2] == bytes[4]);
            vstd::utf8::is_char_boundary_iff_not_is_continuation_byte(tail, 2);
        }
    }
    let (second, _) = rest.split_at(2);
    proof {
        assert(first.spec_bytes() =~= bytes.subrange(0, 2));
        assert(second.spec_bytes() =~= bytes.subrange(2, 4));
        assert(first@ == byte_piece(symbol@, 0, 2));
        assert(second@ == byte_piece(symbol@, 2, 4));
    }
    let r = String::from_str(kind).concat(first).concat("/").concat(second).concat("/").concat(
        symbol,
    ).concat(suffix);
    assert(r@ =~= shard_text(kind@, symbol@, suffix@));
    r
}

/// The place of the day bars of `symbol` below the base directory.
pub fn day_chart_name(symbol: &str) -> (r: String)
    requires
        has_shard(symbol@),
    ensures
        r@ == shard_text("stocks/day/"@, symbol@, ".csv"@),
{
    shard_name("stocks/day/", symbol, ".csv")
}

/// The place of the minute bars of `symbol` below the base directory.
pub fn minutes_chart_name(symbol: &str) -> (r: String)
    requires
        has_shard(symbol@),
    ensures
        r@ == shard_text("stocks/minutes/"@, symbol@, ""@),
{
    shard_name("stocks/minutes/", symbol, "")
}

/// The local source of charts: the directory its files lie in.
#[derive(Debug)]
pub struct LocalLoader {
    base_dir: PathBuf,
}

impl LocalLoader {
    pub closed spec fn spec_base_dir(self) -> PathBuf {
        self.base_dir
    }

    /// The source whose files lie in `base_dir`.
    pub fn rooted(base_dir: PathBuf) -> (r: LocalLoader)
        ensures
            r.spec_base_dir() == base_dir,
    {
        LocalLoader { base_dir }
    }

    /// The file of the day bars of `symbol`: below the base directory, at
    /// the place that [`day_chart_name`] gives.
    pub fn day_chart_path<S: GetSymbolCode>(&self, symbol: S) -> (r: PathBuf)
        requires
            has_shard(symbol.symbol_text()),
        ensures
            r == joined_path(
                self.spec_base_dir(),
                shard_text("stocks/day/"@, symbol.symbol_text(), ".csv"@),
            ),
    {
        let name: String = day_chart_name(symbol.symbol());
        self.storage(name.as_str())
    }

    /// The directory of the minute bars of `symbol`: below the base
    /// directory, at the place that [`minutes_chart_name`] gives.
    pub fn minutes_chart_dir<S: GetSymbolCode>(&self, symbol: S) -> (r: PathBuf)
        requires
            has_shard(symbol.symbol_text()),
        ensures
            r == joined_path(
                self.spec_base_dir(),
                shard_text("stocks/minutes/"@, symbol.symbol_text(), ""@),
            ),
    {
        let name: String = minutes_chart_name(symbol.symbol());
        self.storage(name.as_str())
    }

    /// The file of the list of stocks: `stocks.csv` below the base directory.
    pub fn stocks_path(&self) -> (r: PathBuf)
        ensures
            r == joined_path(self.spec_base_dir(), "stocks.csv"@),
    {
        self.storage("stocks.csv")
    }

    /// The place `append` below the base directory.
    pub fn storage(&self, append: &str) -> (r: PathBuf)
        ensures
            r == joined_path(self.spec_base_dir(), append@),
    {
        join_path(&self.base_dir, append)
    }
}

} // verus!
