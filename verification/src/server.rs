//! The settings of the server as the engine runs with them: the configured
//! settings with their defaults filled in, checked once when the blueprint
//! is made.

use vstd::prelude::*;

use crate::casing::{lowercased, to_lowercase};
use crate::config::{self, clone_pairs, key_values, HttpVersion, KeyValue, or_default, Routes};
use crate::config_module::ConfigModule;
use crate::context::path_texts;
use crate::names::str_eq;
use crate::request::pairs_text;
use crate::text::{chars_of, is_prefix_at, matches_at};

verus! {

/// An address of the internet protocol.
#[derive(Clone, Copy, Debug, PartialEq, Eq, Structural)]
pub enum IpAddress {
    V4(u8, u8, u8, u8),
    V6(u128),
}

/// What only the machine knows.
#[derive(Clone, Copy, Debug)]
pub struct Machine {
    /// The address that the configured hostname, in lower case, reads as;
    /// none where it reads as no address.
    pub hostname: Option<IpAddress>,
    /// The number of workers that the machine offers.
    pub workers: usize,
}

/// A script with the time it may run, in milliseconds.
#[derive(Clone, Debug, PartialEq, Eq)]
pub struct Script {
    pub source: String,
    pub timeout: Option<u64>,
}

/// The protocol that the server speaks, with what it needs for it.
#[derive(Clone, Debug, PartialEq, Eq)]
pub enum Http {
    HTTP1,
    HTTP2 { cert: Vec<Vec<u8>>, key: Vec<u8> },
}

/// What is wrong with the settings of a server.
#[derive(Clone, Debug, PartialEq, Eq)]
pub enum BlueprintError {
    CertificateIsRequiredForHTTP2,
    KeyIsRequiredForHTTP2,
    /// The hostname is no address.
    ParsingFailed(String),
    InvalidHeaderName(String),
    InvalidHeaderValue(String),
    /// An experimental header must start with `x-`.
    ExperimentalHeaderInvalidFormat(String),
    /// Credentials cannot be allowed together with the wildcard that is
    /// named.
    CredentialsWithWildcard(String),
}

/// The mathematical content of a [`BlueprintError`].
pub ghost enum ErrorModel {
    CertificateIsRequiredForHTTP2,
    KeyIsRequiredForHTTP2,
    ParsingFailed(Seq<char>),
    InvalidHeaderName(Seq<char>),
    InvalidHeaderValue(Seq<char>),
    ExperimentalHeaderInvalidFormat(Seq<char>),
    CredentialsWithWildcard(Seq<char>),
}

impl View for BlueprintError {
    type V = ErrorModel;

    open spec fn view(&self) -> ErrorModel {
        match self {
            BlueprintError::CertificateIsRequiredForHTTP2 => ErrorModel::CertificateIsRequiredForHTTP2,
            BlueprintError::KeyIsRequiredForHTTP2 => ErrorModel::KeyIsRequiredForHTTP2,
            BlueprintError::ParsingFailed(t) => ErrorModel::ParsingFailed(t@),
            BlueprintError::InvalidHeaderName(t) => ErrorModel::InvalidHeaderName(t@),
            BlueprintError::InvalidHeaderValue(t) => ErrorModel::InvalidHeaderValue(t@),
            BlueprintError::ExperimentalHeaderInvalidFormat(t) => ErrorModel::ExperimentalHeaderInvalidFormat(
                t@,
            ),
            BlueprintError::CredentialsWithWildcard(t) => ErrorModel::CredentialsWithWildcard(t@),
        }
    }
}

/// One thing that is wrong, and where in the configuration it is.
#[derive(Clone, Debug, PartialEq, Eq)]
pub struct Cause {
    pub error: BlueprintError,
    pub trace: Vec<String>,
}

/// The mathematical content of a [`Cause`].
pub ghost struct CauseModel {
    pub error: ErrorModel,
    pub trace: Seq<Seq<char>>,
}

/// The mathematical content of a list of causes.
pub open spec fn causes_model(causes: Seq<Cause>) -> Seq<CauseModel> {
    Seq::new(
        causes.len(),
        |i: int| CauseModel { error: causes[i].error@, trace: path_texts(causes[i].trace@) },
    )
}

/// The settings that the server runs with.
#[derive(Clone, Debug)]
pub struct Server {
    pub enable_apollo_tracing: bool,
    pub enable_cache_control_header: bool,
    pub enable_set_cookie_header: bool,
    pub enable_introspection: bool,
    pub enable_query_validation: bool,
    pub enable_response_validation: bool,
    pub enable_batch_requests: bool,
    pub enable_showcase: bool,
    pub global_response_timeout: i64,
    pub worker: usize,
    pub port: u16,
    pub hostname: IpAddress,
    pub vars: Vec<KeyValue>,
    /// The headers added to every response, each name in its normal form.
    pub response_headers: Vec<(String, String)>,
    pub http: Http,
    pub pipeline_flush: bool,
    pub script: Option<Script>,
    pub cors: Option<config::Cors>,
    /// The experimental headers that are passed on, each in its normal
    /// form and none twice.
    pub experimental_headers: Vec<String>,
    pub routes: Routes,
}

/// The normal form that `http::header::HeaderName::from_bytes` gives the
/// header name `text`, if it is one.
pub uninterp spec fn header_name_of(text: Seq<char>) -> Option<Seq<char>>;

/// `http::header::HeaderName::from_bytes` on the bytes of `text`, and
/// `as_str` on the name: the contract gives the result the name
/// [`header_name_of`] and claims no more.
#[verifier::external_body]
fn parse_header_name(text: &str) -> (r: Option<String>)
    ensures
        match r {
            Some(name) => header_name_of(text@) == Some(name@),
            None => header_name_of(text@) is None,
        },
{
    http::header::HeaderName::from_bytes(text.as_bytes()).ok().map(|n| n.as_str().to_string())
}

/// A text can be the value of a header: it holds no control character but
/// the tabulator.
pub open spec fn header_value_ok(text: Seq<char>) -> bool {
    forall|i: int|
        0 <= i < text.len() ==> (#[trigger] text[i]) as u32 == 9 || (text[i] as u32 >= 32
            && text[i] as u32 != 127)
}

/// Whether `http::header::HeaderValue::from_str` accepts `text`: it does
/// unless a byte of the text is below 32 and no tabulator, or is 127.
#[verifier::external_body]
fn header_value_is_valid(text: &str) -> (r: bool)
    ensures
        r == header_value_ok(text@),
{
    http::header::HeaderValue::from_str(text).is_ok()
}

/// The address for a hostname in lower case: the loopback address for
/// `localhost`, else the address that the hostname reads as.
pub open spec fn hostname_address(hostname: Seq<char>, parsed: Option<IpAddress>) -> Option<
    IpAddress,
> {
    if hostname == "localhost"@ {
        Some(IpAddress::V4(127, 0, 0, 1))
    } else {
        parsed
    }
}

/// What is wrong with the custom response headers: for each in turn, its
/// name where that is none, then its value where that is none.
pub open spec fn header_errors(headers: Seq<KeyValue>) -> Seq<ErrorModel>
    decreases headers.len(),
{
    if headers.len() == 0 {
        Seq::empty()
    } else {
        let h = headers.last();
        header_errors(headers.drop_last()) + (if header_name_of(h.key@) is None {
            seq![ErrorModel::InvalidHeaderName(h.key@)]
        } else {
            Seq::empty()
        }) + (if !header_value_ok(h.value@) {
            seq![ErrorModel::InvalidHeaderValue(h.value@)]
        } else {
            Seq::empty()
        })
    }
}

/// The response headers with their names in normal form.
pub open spec fn headers_normal(headers: Seq<KeyValue>) -> Seq<(Seq<char>, Seq<char>)> {
    Seq::new(headers.len(), |i: int| (header_name_of(headers[i].key@)->0, headers[i].value@))
}

/// What is wrong with one experimental header: it does not start with
/// `x-`, in whatever case, or it is no header name.
pub open spec fn experimental_error(header: Seq<char>) -> Option<ErrorModel> {
    if !is_prefix_at(lowercased(header), "x-"@) {
        Some(ErrorModel::ExperimentalHeaderInvalidFormat(header))
    } else if header_name_of(header) is None {
        Some(ErrorModel::InvalidHeaderName(header))
    } else {
        None
    }
}

/// What is wrong with the experimental headers, one after the other.
pub open spec fn experimental_errors(headers: Seq<String>) -> Seq<ErrorModel>
    decreases headers.len(),
{
    if headers.len() == 0 {
        Seq::empty()
    } else {
        experimental_errors(headers.drop_last()) + match experimental_error(headers.last()@) {
            Some(e) => seq![e],
            None => Seq::empty(),
        }
    }
}

/// The normal forms of the experimental headers, each once, in the order
/// in which they first occur.
pub open spec fn experimental_normal(headers: Seq<String>) -> Seq<Seq<char>>
    decreases headers.len(),
{
    if headers.len() == 0 {
        Seq::empty()
    } else {
        let front = experimental_normal(headers.drop_last());
        let name = header_name_of(headers.last()@)->0;
        if front.contains(name) {
            front
        } else {
            front.push(name)
        }
    }
}

/// Whether `*` is among `names`.
pub open spec fn has_wildcard(names: Seq<String>) -> bool {
    exists|i: int| 0 <= i < names.len() && #[trigger] names[i]@ == "*"@
}

/// What is wrong with the cross-origin settings: credentials allowed
/// together with a wildcard for the allowed headers, the allowed origins
/// or the exposed headers, named in this order.
pub open spec fn cors_errors(cors: Option<config::Cors>) -> Seq<ErrorModel> {
    match cors {
        Some(c) => if or_default(c.allow_credentials, false) {
            (if has_wildcard(c.allow_headers@) {
                seq![ErrorModel::CredentialsWithWildcard("Access-Control-Allow-Headers"@)]
            } else {
                Seq::empty()
            }) + (if has_wildcard(c.allow_origins@) {
                seq![ErrorModel::CredentialsWithWildcard("Access-Control-Allow-Origin"@)]
            } else {
                Seq::empty()
            }) + (if has_wildcard(c.expose_headers@) {
                seq![ErrorModel::CredentialsWithWildcard("Access-Control-Expose-Headers"@)]
            } else {
                Seq::empty()
            })
        } else {
            Seq::empty()
        },
        None => Seq::empty(),
    }
}

fn trace_of(parts: &[&str]) -> (r: Vec<String>)
    ensures
        r@.len() == parts@.len(),
        forall|i: int| 0 <= i < r@.len() ==> (#[trigger] r@[i])@ == parts@[i]@,
{
    let mut out: Vec<String> = Vec::new();
    let mut i: usize = 0;
    while i < parts.len()
        invariant
            i <= parts.len(),
            out.len() == i,
            forall|j: int| 0 <= j < i ==> (#[trigger] out@[j])@ == parts@[j]@,
        decreases parts.len() - i,
    {
        out.push(String::from_str(parts[i]));
        i += 1;
    }
    out
}

/// The script to run, with its time limit: the resolved script file, if
/// there is one.
pub fn to_script(config_module: &ConfigModule) -> (r: Option<Script>)
    ensures
        match config_module.extensions.script {
            Some(source) => r matches Some(script) && script.source == source && script.timeout
                == match config_module.config.server.script {
                Some(options) => options.timeout,
                None => None,
            },
            None => r is None,
        },
{
    match &config_module.extensions.script {
        Some(source) => Some(
            Script {
                source: source.clone(),
                timeout: match &config_module.config.server.script {
                    Some(options) => options.timeout,
                    None => None,
                },
            },
        ),
        None => None,
    }
}

/// The address to listen on for a hostname in lower case.
pub fn validate_hostname(hostname: String, parsed: Option<IpAddress>) -> (r: Result<
    IpAddress,
    Cause,
>)
    ensures
        match hostname_address(hostname@, parsed) {
            Some(address) => r == Ok::<IpAddress, Cause>(address),
            None => r matches Err(cause) && cause.error@ == ErrorModel::ParsingFailed(hostname@)
                && path_texts(cause.trace@) == seq!["schema"@, "@server"@, "hostname"@],
        },
{
    if str_eq(hostname.as_str(), "localhost") {
        Ok(IpAddress::V4(127, 0, 0, 1))
    } else {
        match parsed {
            Some(address) => Ok(address),
            None => {
                let trace = trace_of(&["schema", "@server", "hostname"]);
                assert(path_texts(trace@) =~= seq!["schema"@, "@server"@, "hostname"@]);
                Err(Cause { error: BlueprintError::ParsingFailed(hostname), trace })
            },
        }
    }
}

/// The mathematical content of a list of errors found in one place.
pub open spec fn errors_at(errors: Seq<ErrorModel>, trace: Seq<Seq<char>>) -> Seq<CauseModel> {
    Seq::new(errors.len(), |i: int| CauseModel { error: errors[i], trace })
}

proof fn lemma_push_cause(
    causes: Seq<Cause>,
    cause: Cause,
    errors: Seq<ErrorModel>,
    place: Seq<Seq<char>>,
)
    requires
        causes_model(causes) == errors_at(errors, place),
        path_texts(cause.trace@) == place,
    ensures
        causes_model(causes.push(cause)) == errors_at(errors + seq![cause.error@], place),
{
    let left = causes_model(causes.push(cause));
    let right = errors_at(errors + seq![cause.error@], place);
    assert(causes_model(causes).len() == causes.len());
    assert(errors_at(errors, place).len() == errors.len());
    assert(causes.len() == errors.len());
    assert(left.len() == causes.len() + 1);
    assert(right.len() == errors.len() + 1);
    assert forall|j: int| 0 <= j < left.len() implies left[j] == right[j] by {
        if j < causes.len() {
            assert(causes_model(causes)[j] == errors_at(errors, place)[j]);
            assert(causes.push(cause)[j] == causes[j]);
            assert((errors + seq![cause.error@])[j] == errors[j]);
            assert(causes_model(causes)[j].error == causes[j].error@);
            assert(errors_at(errors, place)[j].error == errors[j]);
        } else {
            assert(causes.push(cause)[j] == cause);
            assert((errors + seq![cause.error@])[j] == cause.error@);
        }
    }
    assert(left =~= right);
}

/// The custom response headers with their names in normal form, or what
/// is wrong with them.
pub fn handle_response_headers(resp_headers: &Vec<KeyValue>) -> (r: Result<
    Vec<(String, String)>,
    Vec<Cause>,
>)
    ensures
        match r {
            Ok(headers) => header_errors(resp_headers@).len() == 0 && pairs_text(headers@)
                == headers_normal(resp_headers@),
            Err(causes) => causes@.len() > 0 && causes_model(causes@) == errors_at(
                header_errors(resp_headers@),
                seq!["schema"@, "@server"@, "headers"@, "custom"@],
            ),
        },
{
    let ghost place = seq!["schema"@, "@server"@, "headers"@, "custom"@];
    let mut headers: Vec<(String, String)> = Vec::new();
    let mut causes: Vec<Cause> = Vec::new();
    let mut i: usize = 0;
    assert(resp_headers@.take(0) =~= Seq::<KeyValue>::empty());
    assert(causes_model(causes@) =~= errors_at(header_errors(resp_headers@.take(0)), place));
    while i < resp_headers.len()
        invariant
            i <= resp_headers.len(),
            place == seq!["schema"@, "@server"@, "headers"@, "custom"@],
            causes_model(causes@) == errors_at(header_errors(resp_headers@.take(i as int)), place),
            causes.len() == 0 ==> headers.len() == i && forall|j: int|
                0 <= j < i ==> (#[trigger] headers[j]).0@ == header_name_of(
                    resp_headers[j].key@,
                )->0 && headers[j].1@ == resp_headers[j].value@,
        decreases resp_headers.len() - i,
    {
        let header = &resp_headers[i];
        let ghost before = header_errors(resp_headers@.take(i as int));
        let ghost causes_before = causes_model(causes@);
        proof {
            let next = resp_headers@.take(i + 1);
            assert(next.drop_last() =~= resp_headers@.take(i as int));
            assert(next.last() == *header);
        }
        let name = parse_header_name(header.key.as_str());
        let value_ok = header_value_is_valid(header.value.as_str());
        let ghost first: Seq<ErrorModel> = if name is None {
            seq![ErrorModel::InvalidHeaderName(header.key@)]
        } else {
            Seq::empty()
        };
        let ghost second: Seq<ErrorModel> = if !value_ok {
            seq![ErrorModel::InvalidHeaderValue(header.value@)]
        } else {
            Seq::empty()
        };
        assert(header_errors(resp_headers@.take(i + 1)) == before + first + second);
        if name.is_none() {
            let trace = trace_of(&["schema", "@server", "headers", "custom"]);
            assert(path_texts(trace@) =~= place);
            let cause = Cause { error: BlueprintError::InvalidHeaderName(header.key.clone()), trace };
            proof {
                lemma_push_cause(causes@, cause, before, place);
            }
            causes.push(cause);
        } else {
            assert(before + first =~= before);
        }
        assert(causes_model(causes@) == errors_at(before + first, place));
        if !value_ok {
            let trace = trace_of(&["schema", "@server", "headers", "custom"]);
            assert(path_texts(trace@) =~= place);
            let cause = Cause {
                error: BlueprintError::InvalidHeaderValue(header.value.clone()),
                trace,
            };
            proof {
                lemma_push_cause(causes@, cause, before + first, place);
            }
            causes.push(cause);
        } else {
            assert(before + first + second =~= before + first);
        }
        assert(causes_model(causes@) == errors_at(before + first + second, place));
        if causes.len() == 0 {
            match name {
                Some(name) => {
                    headers.push((name, header.value.clone()));
                },
                None => {},
            }
        }
        i += 1;
    }
    assert(resp_headers@.take(resp_headers.len() as int) =~= resp_headers@);
    if causes.len() == 0 {
        assert(errors_at(header_errors(resp_headers@), place).len() == 0);
        assert(pairs_text(headers@) =~= headers_normal(resp_headers@));
        Ok(headers)
    } else {
        Err(causes)
    }
}

/// The experimental headers in normal form, each once, or what is wrong
/// with them.
pub fn handle_experimental_headers(headers: &Vec<String>) -> (r: Result<Vec<String>, Vec<Cause>>)
    ensures
        match r {
            Ok(names) => experimental_errors(headers@).len() == 0 && path_texts(names@)
                == experimental_normal(headers@),
            Err(causes) => causes@.len() > 0 && causes_model(causes@) == errors_at(
                experimental_errors(headers@),
                seq!["schema"@, "@server"@, "headers"@, "experimental"@],
            ),
        },
{
    let ghost place = seq!["schema"@, "@server"@, "headers"@, "experimental"@];
    let prefix = chars_of("x-");
    let mut names: Vec<String> = Vec::new();
    let mut causes: Vec<Cause> = Vec::new();
    let mut i: usize = 0;
    assert(headers@.take(0) =~= Seq::<String>::empty());
    assert(causes_model(causes@) =~= errors_at(experimental_errors(headers@.take(0)), place));
    assert(path_texts(names@) =~= experimental_normal(headers@.take(0)));
    while i < headers.len()
        invariant
            i <= headers.len(),
            prefix@ == "x-"@,
            place == seq!["schema"@, "@server"@, "headers"@, "experimental"@],
            causes_model(causes@) == errors_at(experimental_errors(headers@.take(i as int)), place),
            causes.len() == 0 ==> path_texts(names@) == experimental_normal(
                headers@.take(i as int),
            ),
        decreases headers.len() - i,
    {
        let header = &headers[i];
        proof {
            let next = headers@.take(i + 1);
            assert(next.drop_last() =~= headers@.take(i as int));
            assert(next.last() == *header);
        }
        let lower = chars_of(to_lowercase(header.as_str()).as_str());
        let ghost before = experimental_errors(headers@.take(i as int));
        let found = if !matches_at(&lower, &prefix, 0) {
            Err(BlueprintError::ExperimentalHeaderInvalidFormat(header.clone()))
        } else {
            match parse_header_name(header.as_str()) {
                Some(name) => Ok(name),
                None => Err(BlueprintError::InvalidHeaderName(header.clone())),
            }
        };
        match found {
            Err(error) => {
                let trace = trace_of(&["schema", "@server", "headers", "experimental"]);
                assert(path_texts(trace@) =~= place);
                let cause = Cause { error, trace };
                proof {
                    lemma_push_cause(causes@, cause, before, place);
                }
                causes.push(cause);
                assert(experimental_errors(headers@.take(i + 1)) == before + seq![error@]);
            },
            Ok(name) => {
                assert(experimental_errors(headers@.take(i + 1)) == before + Seq::<
                    ErrorModel,
                >::empty());
                assert(before + Seq::<ErrorModel>::empty() =~= before);
                if causes.len() == 0 {
                    let ghost before = path_texts(names@);
                    let mut known = false;
                    let mut k: usize = 0;
                    while k < names.len()
                        invariant
                            k <= names.len(),
                            before == path_texts(names@),
                            known == exists|j: int| 0 <= j < k && before[j] == name@,
                        decreases names.len() - k,
                    {
                        if str_eq(names[k].as_str(), name.as_str()) {
                            assert(before[k as int] == name@);
                            known = true;
                        }
                        k += 1;
                    }
                    assert(known == before.contains(name@));
                    if !known {
                        names.push(name);
                        assert(path_texts(names@) =~= before.push(name@));
                    }
                }
            },
        }
        i += 1;
    }
    assert(headers@.take(headers.len() as int) =~= headers@);
    if causes.len() == 0 {
        assert(errors_at(experimental_errors(headers@), place).len() == 0);
        Ok(names)
    } else {
        Err(causes)
    }
}

fn contains_wildcard(names: &Vec<String>) -> (r: bool)
    ensures
        r == has_wildcard(names@),
{
    let mut i: usize = 0;
    while i < names.len()
        invariant
            i <= names.len(),
            forall|j: int| 0 <= j < i ==> names[j]@ != "*"@,
        decreases names.len() - i,
    {
        if str_eq(names[i].as_str(), "*") {
            return true;
        }
        i += 1;
    }
    false
}

/// Checks the cross-origin settings: credentials may not be allowed
/// together with a wildcard.
pub fn validate_cors(cors: &Option<config::Cors>) -> (r: Result<(), Vec<Cause>>)
    ensures
        match r {
            Ok(_) => cors_errors(*cors).len() == 0,
            Err(causes) => causes@.len() > 0 && causes_model(causes@) == errors_at(
                cors_errors(*cors),
                seq!["schema"@, "@server"@, "headers"@, "cors"@],
            ),
        },
{
    let ghost place = seq!["schema"@, "@server"@, "headers"@, "cors"@];
    let mut causes: Vec<Cause> = Vec::new();
    assert(causes_model(causes@) =~= errors_at(Seq::<ErrorModel>::empty(), place));
    match cors {
        Some(c) => {
            let credentials = match c.allow_credentials {
                Some(b) => b,
                None => false,
            };
            if credentials {
                let ghost first: Seq<ErrorModel> = if has_wildcard(c.allow_headers@) {
                    seq![ErrorModel::CredentialsWithWildcard("Access-Control-Allow-Headers"@)]
                } else {
                    Seq::empty()
                };
                let ghost second: Seq<ErrorModel> = if has_wildcard(c.allow_origins@) {
                    seq![ErrorModel::CredentialsWithWildcard("Access-Control-Allow-Origin"@)]
                } else {
                    Seq::empty()
                };
                let ghost third: Seq<ErrorModel> = if has_wildcard(c.expose_headers@) {
                    seq![ErrorModel::CredentialsWithWildcard("Access-Control-Expose-Headers"@)]
                } else {
                    Seq::empty()
                };
                assert(cors_errors(*cors) == first + second + third);
                if contains_wildcard(&c.allow_headers) {
                    let cause = cors_cause("Access-Control-Allow-Headers");
                    proof {
                        lemma_push_cause(causes@, cause, Seq::empty(), place);
                        assert(Seq::<ErrorModel>::empty() + seq![cause.error@] =~= first);
                    }
                    causes.push(cause);
                }
                assert(causes_model(causes@) == errors_at(first, place));
                if contains_wildcard(&c.allow_origins) {
                    let cause = cors_cause("Access-Control-Allow-Origin");
                    proof {
                        lemma_push_cause(causes@, cause, first, place);
                    }
                    causes.push(cause);
                } else {
                    assert(first + second =~= first);
                }
                assert(causes_model(causes@) == errors_at(first + second, place));
                if contains_wildcard(&c.expose_headers) {
                    let cause = cors_cause("Access-Control-Expose-Headers");
                    proof {
                        lemma_push_cause(causes@, cause, first + second, place);
                    }
                    causes.push(cause);
                } else {
                    assert(first + second + third =~= first + second);
                }
                assert(causes_model(causes@) == errors_at(first + second + third, place));
            }
        },
        None => {},
    }
    if causes.len() == 0 {
        assert(errors_at(cors_errors(*cors), place).len() == cors_errors(*cors).len());
        Ok(())
    } else {
        Err(causes)
    }
}

fn cors_cause(name: &str) -> (cause: Cause)
    ensures
        cause.error@ == ErrorModel::CredentialsWithWildcard(name@),
        path_texts(cause.trace@) == seq!["schema"@, "@server"@, "headers"@, "cors"@],
{
    let trace = trace_of(&["schema", "@server", "headers", "cors"]);
    assert(path_texts(trace@) =~= seq!["schema"@, "@server"@, "headers"@, "cors"@]);
    Cause { error: BlueprintError::CredentialsWithWildcard(String::from_str(name)), trace }
}

/// The custom response headers that are configured.
pub open spec fn custom_headers(settings: config::Server) -> Seq<KeyValue> {
    match settings.headers {
        Some(h) => h.custom@,
        None => Seq::empty(),
    }
}

/// The experimental headers that are configured.
pub open spec fn experimental_settings(settings: config::Server) -> Seq<String> {
    match settings.headers {
        Some(h) => h.experimental@,
        None => Seq::empty(),
    }
}

/// The cross-origin settings that are configured.
pub open spec fn cors_settings(settings: config::Server) -> Option<config::Cors> {
    match settings.headers {
        Some(h) => h.cors,
        None => None,
    }
}

/// The hostname that is configured, in lower case.
pub open spec fn hostname_text(settings: config::Server) -> Seq<char> {
    lowercased(
        match settings.hostname {
            Some(h) => h@,
            None => "127.0.0.1"@,
        },
    )
}

/// Everything that is wrong with the settings of a server. HTTP/2
/// without a certificate, or else without a key, is the one thing said.
/// Otherwise: the hostname where it is no address, then what is wrong
/// with the custom headers, with the experimental headers, and with the
/// cross-origin settings.
pub open spec fn server_errors(config_module: &ConfigModule, machine: Machine) -> Seq<CauseModel> {
    let settings = config_module.config.server;
    if settings.version == Some(HttpVersion::HTTP2) && config_module.extensions.cert@.len() == 0 {
        seq![CauseModel { error: ErrorModel::CertificateIsRequiredForHTTP2, trace: Seq::empty() }]
    } else if settings.version == Some(HttpVersion::HTTP2)
        && config_module.extensions.keys@.len() == 0 {
        seq![CauseModel { error: ErrorModel::KeyIsRequiredForHTTP2, trace: Seq::empty() }]
    } else {
        (if hostname_address(hostname_text(settings), machine.hostname) is None {
            seq![
                CauseModel {
                    error: ErrorModel::ParsingFailed(hostname_text(settings)),
                    trace: seq!["schema"@, "@server"@, "hostname"@],
                },
            ]
        } else {
            Seq::empty()
        }) + errors_at(
            header_errors(custom_headers(settings)),
            seq!["schema"@, "@server"@, "headers"@, "custom"@],
        ) + errors_at(
            experimental_errors(experimental_settings(settings)),
            seq!["schema"@, "@server"@, "headers"@, "experimental"@],
        ) + errors_at(
            cors_errors(cors_settings(settings)),
            seq!["schema"@, "@server"@, "headers"@, "cors"@],
        )
    }
}

fn clone_bytes(bytes: &Vec<u8>) -> (r: Vec<u8>)
    ensures
        r@ == bytes@,
{
    let mut out: Vec<u8> = Vec::new();
    let mut i: usize = 0;
    while i < bytes.len()
        invariant
            i <= bytes.len(),
            out@ == bytes@.take(i as int),
        decreases bytes.len() - i,
    {
        out.push(bytes[i]);
        assert(bytes@.take(i + 1) =~= bytes@.take(i as int).push(bytes@[i as int]));
        i += 1;
    }
    assert(bytes@.take(bytes.len() as int) =~= bytes@);
    out
}

fn clone_certs(certs: &Vec<Vec<u8>>) -> (r: Vec<Vec<u8>>)
    ensures
        r@.len() == certs@.len(),
        forall|i: int| 0 <= i < r@.len() ==> (#[trigger] r@[i])@ == certs@[i]@,
{
    let mut out: Vec<Vec<u8>> = Vec::new();
    let mut i: usize = 0;
    while i < certs.len()
        invariant
            i <= certs.len(),
            out.len() == i,
            forall|j: int| 0 <= j < i ==> (#[trigger] out@[j])@ == certs@[j]@,
        decreases certs.len() - i,
    {
        out.push(clone_bytes(&certs[i]));
        i += 1;
    }
    out
}

fn append_causes(to: &mut Vec<Cause>, from: Vec<Cause>)
    ensures
        causes_model(final(to)@) == causes_model(old(to)@) + causes_model(from@),
{
    let mut from = from;
    let ghost tail = from@;
    to.append(&mut from);
    assert(causes_model(to@) =~= causes_model(old(to)@) + causes_model(tail));
}

impl Server {
    pub fn get_enable_http_validation(&self) -> (r: bool)
        ensures
            r == self.enable_response_validation,
    {
        self.enable_response_validation
    }

    pub fn get_enable_cache_control(&self) -> (r: bool)
        ensures
            r == self.enable_cache_control_header,
    {
        self.enable_cache_control_header
    }

    pub fn get_enable_introspection(&self) -> (r: bool)
        ensures
            r == self.enable_introspection,
    {
        self.enable_introspection
    }

    pub fn get_enable_query_validation(&self) -> (r: bool)
        ensures
            r == self.enable_query_validation,
    {
        self.enable_query_validation
    }

    /// The experimental headers that are passed on.
    pub fn get_experimental_headers(&self) -> (r: Vec<String>)
        ensures
            r@ == self.experimental_headers@,
    {
        let mut out: Vec<String> = Vec::new();
        let mut i: usize = 0;
        while i < self.experimental_headers.len()
            invariant
                i <= self.experimental_headers.len(),
                out@ == self.experimental_headers@.take(i as int),
            decreases self.experimental_headers.len() - i,
        {
            out.push(self.experimental_headers[i].clone());
            assert(self.experimental_headers@.take(i + 1) =~= self.experimental_headers@.take(
                i as int,
            ).push(self.experimental_headers@[i as int]));
            i += 1;
        }
        assert(self.experimental_headers@.take(self.experimental_headers.len() as int)
            =~= self.experimental_headers@);
        out
    }

    /// The settings that the server runs with, or everything that is wrong
    /// with what is configured.
    pub fn try_from(config_module: &ConfigModule, machine: &Machine) -> (r: Result<
        Server,
        Vec<Cause>,
    >)
        ensures
            match r {
                Ok(server) => {
                    let settings = config_module.config.server;
                    &&& server_errors(config_module, *machine).len() == 0
                    &&& server.enable_apollo_tracing == or_default(settings.apollo_tracing, false)
                    &&& server.enable_introspection == or_default(settings.introspection, true)
                    &&& server.enable_query_validation == or_default(
                        settings.query_validation,
                        false,
                    )
                    &&& server.enable_response_validation == or_default(
                        settings.response_validation,
                        false,
                    )
                    &&& server.enable_batch_requests == or_default(settings.batch_requests, false)
                    &&& server.enable_showcase == or_default(settings.showcase, false)
                    &&& server.pipeline_flush == or_default(settings.pipeline_flush, true)
                    &&& server.enable_cache_control_header == match settings.headers {
                        Some(h) => or_default(h.cache_control, false),
                        None => false,
                    }
                    &&& server.enable_set_cookie_header == match settings.headers {
                        Some(h) => or_default(h.set_cookies, false),
                        None => false,
                    }
                    &&& server.global_response_timeout == match settings.global_response_timeout {
                        Some(t) => t,
                        None => 0,
                    }
                    &&& server.port == match settings.port {
                        Some(p) => p,
                        None => 8000,
                    }
                    &&& server.worker == match settings.workers {
                        Some(w) => w,
                        None => machine.workers,
                    }
                    &&& Some(server.hostname) == hostname_address(
                        hostname_text(settings),
                        machine.hostname,
                    )
                    &&& pairs_text(server.response_headers@) == headers_normal(
                        custom_headers(settings),
                    )
                    &&& path_texts(server.experimental_headers@) == experimental_normal(
                        experimental_settings(settings),
                    )
                    &&& match settings.version {
                        Some(HttpVersion::HTTP2) => server.http matches Http::HTTP2 { cert, key }
                            && key@ == config_module.extensions.keys@[0]@ && cert@.len()
                            == config_module.extensions.cert@.len() && forall|i: int|
                            0 <= i < cert@.len() ==> (#[trigger] cert@[i])@
                                == config_module.extensions.cert@[i]@,
                        _ => server.http == Http::HTTP1,
                    }
                    &&& match config_module.extensions.script {
                        Some(source) => server.script matches Some(script) && script.source
                            == source && script.timeout == match settings.script {
                            Some(options) => options.timeout,
                            None => None,
                        },
                        None => server.script is None,
                    }
                    &&& match cors_settings(settings) {
                        Some(cors) => server.cors matches Some(kept) && kept.same_as(cors),
                        None => server.cors is None,
                    }
                    &&& key_values(server.vars@) == key_values(settings.vars@)
                    &&& server.routes.status@ == match settings.routes {
                        Some(routes) => routes.status@,
                        None => "/status"@,
                    }
                    &&& server.routes.graphql@ == match settings.routes {
                        Some(routes) => routes.graphql@,
                        None => "/graphql"@,
                    }
                },
                Err(causes) => causes@.len() > 0 && causes_model(causes@) == server_errors(
                    config_module,
                    *machine,
                ),
            },
    {
        let settings = &config_module.config.server;
        let extensions = &config_module.extensions;
        let http = match settings.get_version() {
            HttpVersion::HTTP2 => {
                if extensions.cert.len() == 0 {
                    let mut causes: Vec<Cause> = Vec::new();
                    causes.push(
                        Cause {
                            error: BlueprintError::CertificateIsRequiredForHTTP2,
                            trace: Vec::new(),
                        },
                    );
                    assert(path_texts(causes@[0].trace@) =~= Seq::<Seq<char>>::empty());
                    assert(causes_model(causes@).len() == 1);
                    assert(causes_model(causes@)[0] == server_errors(config_module, *machine)[0]);
                    assert(causes_model(causes@) =~= server_errors(config_module, *machine));
                    return Err(causes);
                }
                if extensions.keys.len() == 0 {
                    let mut causes: Vec<Cause> = Vec::new();
                    causes.push(
                        Cause { error: BlueprintError::KeyIsRequiredForHTTP2, trace: Vec::new() },
                    );
                    assert(path_texts(causes@[0].trace@) =~= Seq::<Seq<char>>::empty());
                    assert(causes_model(causes@).len() == 1);
                    assert(causes_model(causes@)[0] == server_errors(config_module, *machine)[0]);
                    assert(causes_model(causes@) =~= server_errors(config_module, *machine));
                    return Err(causes);
                }
                Http::HTTP2 {
                    cert: clone_certs(&extensions.cert),
                    key: clone_bytes(&extensions.keys[0]),
                }
            },
            HttpVersion::HTTP1 => Http::HTTP1,
        };
        let mut causes: Vec<Cause> = Vec::new();
        assert(causes_model(causes@) =~= Seq::<CauseModel>::empty());
        let lower = to_lowercase(settings.get_hostname().as_str());
        let hostname = match validate_hostname(lower, machine.hostname) {
            Ok(address) => Some(address),
            Err(cause) => {
                causes.push(cause);
                None
            },
        };
        let ghost first = causes_model(causes@);
        assert(first =~= if hostname_address(hostname_text(*settings), machine.hostname) is None {
            seq![
                CauseModel {
                    error: ErrorModel::ParsingFailed(hostname_text(*settings)),
                    trace: seq!["schema"@, "@server"@, "hostname"@],
                },
            ]
        } else {
            Seq::<CauseModel>::empty()
        });
        let no_headers: Vec<KeyValue> = Vec::new();
        let no_names: Vec<String> = Vec::new();
        let no_cors: Option<config::Cors> = None;
        let (custom, experimental, cors) = match &settings.headers {
            Some(h) => (&h.custom, &h.experimental, &h.cors),
            None => (&no_headers, &no_names, &no_cors),
        };
        assert(custom@ =~= custom_headers(*settings));
        assert(experimental@ =~= experimental_settings(*settings));
        assert(*cors == cors_settings(*settings));
        let response_headers = match handle_response_headers(custom) {
            Ok(headers) => headers,
            Err(found) => {
                append_causes(&mut causes, found);
                Vec::new()
            },
        };
        let ghost second = causes_model(causes@);
        assert(second =~= first + errors_at(
            header_errors(custom_headers(*settings)),
            seq!["schema"@, "@server"@, "headers"@, "custom"@],
        ));
        let experimental_headers = match handle_experimental_headers(experimental) {
            Ok(names) => names,
            Err(found) => {
                append_causes(&mut causes, found);
                Vec::new()
            },
        };
        let ghost third = causes_model(causes@);
        assert(third =~= second + errors_at(
            experimental_errors(experimental_settings(*settings)),
            seq!["schema"@, "@server"@, "headers"@, "experimental"@],
        ));
        match validate_cors(cors) {
            Ok(_) => {},
            Err(found) => {
                append_causes(&mut causes, found);
            },
        }
        assert(causes_model(causes@) =~= third + errors_at(
            cors_errors(cors_settings(*settings)),
            seq!["schema"@, "@server"@, "headers"@, "cors"@],
        ));
        assert(causes_model(causes@) == server_errors(config_module, *machine));
        if causes.len() > 0 {
            return Err(causes);
        }
        let hostname = match hostname {
            Some(address) => address,
            None => {
                return Err(causes);
            },
        };
        Ok(
            Server {
                enable_apollo_tracing: settings.enable_apollo_tracing(),
                enable_cache_control_header: settings.enable_cache_control(),
                enable_set_cookie_header: settings.enable_set_cookies(),
                enable_introspection: settings.enable_introspection(),
                enable_query_validation: settings.enable_query_validation(),
                enable_response_validation: settings.enable_http_validation(),
                enable_batch_requests: settings.enable_batch_requests(),
                enable_showcase: settings.enable_showcase(),
                experimental_headers,
                global_response_timeout: settings.get_global_response_timeout(),
                http,
                worker: settings.get_workers(machine.workers),
                port: settings.get_port(),
                hostname,
                vars: clone_pairs(&settings.vars),
                pipeline_flush: settings.get_pipeline_flush(),
                response_headers,
                script: to_script(config_module),
                cors: match cors {
                    Some(set) => Some(set.copy()),
                    None => None,
                },
                routes: match &settings.routes {
                    Some(routes) => Routes {
                        status: routes.status.clone(),
                        graphql: routes.graphql.clone(),
                    },
                    None => Routes {
                        status: String::from_str("/status"),
                        graphql: String::from_str("/graphql"),
                    },
                },
            },
        )
    }
}

} // verus!
