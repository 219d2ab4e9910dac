use vstd::prelude::*;
use vstd::string::StrSliceExecFns;
use vstd::utf8::encode_utf8;
use crate::endpoint::{build_url, pairs_view, request_url, utf8_len};
use crate::error::ConfigError;
use crate::http::{header_value, is_header_value, is_uri, uri_accepts};
use crate::text::{decimal, decimal_string};

verus! {

/// The longest rendered query, in bytes, that is still sent in the URL.
pub const MAX_QUERY_LEN_TO_USE_GET: usize = 8192;

/// Whether the response body is compressed.
#[derive(Debug, Clone, Copy, PartialEq, Eq)]
pub enum Compression {
    Disabled,
    Lz4,
}

/// How a request is sent.
#[derive(Debug, Clone, Copy, PartialEq, Eq)]
pub enum Method {
    Get,
    Post,
}

/// What a client is configured with. Queries read it and never change it.
#[derive(Debug)]
pub struct ClientConfig {
    url: String,
    database: Option<String>,
    user: Option<String>,
    password: Option<String>,
    compression: Compression,
    options: Vec<(String, String)>,
}

/// A configuration, as contracts speak of it.
pub struct ConfigView {
    pub url: Seq<char>,
    pub database: Option<Seq<char>>,
    pub user: Option<Seq<char>>,
    pub password: Option<Seq<char>>,
    pub compression: Compression,
    pub options: Seq<(Seq<char>, Seq<char>)>,
}

/// The text of a string that may be absent.
pub open spec fn option_view(s: Option<String>) -> Option<Seq<char>> {
    match s {
        Some(text) => Some(text@),
        None => None,
    }
}

impl View for ClientConfig {
    type V = ConfigView;

    closed spec fn view(&self) -> ConfigView {
        ConfigView {
            url: self.url@,
            database: option_view(self.database),
            user: option_view(self.user),
            password: option_view(self.password),
            compression: self.compression,
            options: pairs_view(self.options@),
        }
    }
}

/// Where the setting `name` stands in `options`, if it is set.
pub open spec fn option_index(options: Seq<(Seq<char>, Seq<char>)>, name: Seq<char>) -> Option<int>
    decreases options.len(),
{
    if options.len() == 0 {
        None
    } else if option_index(options.drop_last(), name) is Some {
        option_index(options.drop_last(), name)
    } else if options.last().0 == name {
        Some(options.len() - 1)
    } else {
        None
    }
}

/// `options` with `name` set to `value`: in the place it had, or at the end.
pub open spec fn with_setting(
    options: Seq<(Seq<char>, Seq<char>)>,
    name: Seq<char>,
    value: Seq<char>,
) -> Seq<(Seq<char>, Seq<char>)> {
    match option_index(options, name) {
        Some(i) => options.update(i, (name, value)),
        None => options.push((name, value)),
    }
}

/// Whether no setting is named twice.
pub open spec fn distinct_names(options: Seq<(Seq<char>, Seq<char>)>) -> bool {
    forall|i: int, j: int|
        0 <= i < j < options.len() ==> (#[trigger] options[i]).0 != (#[trigger] options[j]).0
}

proof fn lemma_option_index(options: Seq<(Seq<char>, Seq<char>)>, name: Seq<char>)
    ensures
        match option_index(options, name) {
            Some(i) => 0 <= i < options.len() && options[i].0 == name,
            None => forall|j: int| 0 <= j < options.len() ==> (#[trigger] options[j]).0 != name,
        },
    decreases options.len(),
{
    if options.len() > 0 {
        lemma_option_index(options.drop_last(), name);
        if option_index(options.drop_last(), name) is None {
            assert forall|j: int| 0 <= j < options.len() - 1 implies (#[trigger] options[j]).0
                != name by {
                assert(options.drop_last()[j] == options[j]);
            }
        }
    }
}

/// Setting an option never names a setting twice.
pub proof fn lemma_setting_keeps_names_distinct(
    options: Seq<(Seq<char>, Seq<char>)>,
    name: Seq<char>,
    value: Seq<char>,
)
    requires
        distinct_names(options),
    ensures
        distinct_names(with_setting(options, name, value)),
{
    lemma_option_index(options, name);
}

/// Sets `name` to `value` in `options`: in the place it had, or at the end.
fn set_option(options: Vec<(String, String)>, name: &str, value: &str) -> (r: Vec<(String, String)>)
    ensures
        pairs_view(r@) == with_setting(pairs_view(options@), name@, value@),
{
    let ghost all = pairs_view(options@);
    let mut list = options;
    let key = name.to_owned();
    let mut i: usize = 0;
    while i < list.len()
        invariant
            i <= list.len(),
            key@ == name@,
            all == pairs_view(list@),
            all == pairs_view(options@),
            option_index(all.take(i as int), name@) is None,
        decreases list.len() - i,
    {
        proof {
            assert(all.take(i + 1).drop_last() =~= all.take(i as int));
            assert(all.take(i + 1).last() == all[i as int]);
        }
        if list[i].0 == key {
            proof {
                assert(all[i as int].0 == name@);
                lemma_index_extends(all, name@, i + 1);
            }
            list.set(i, (key, value.to_owned()));
            proof {
                assert(pairs_view(list@) =~= all.update(i as int, (name@, value@)));
            }
            return list;
        }
        i += 1;
    }
    proof {
        assert(all.take(list.len() as int) =~= all);
    }
    list.push((key, value.to_owned()));
    proof {
        assert(pairs_view(list@) =~= all.push((name@, value@)));
    }
    list
}

/// Copies `pairs`.
fn copy_pairs(pairs: &Vec<(String, String)>) -> (r: Vec<(String, String)>)
    ensures
        pairs_view(r@) == pairs_view(pairs@),
{
    let mut r: Vec<(String, String)> = Vec::new();
    let mut i: usize = 0;
    while i < pairs.len()
        invariant
            i <= pairs.len(),
            pairs_view(r@) == pairs_view(pairs@).take(i as int),
        decreases pairs.len() - i,
    {
        let ghost before = pairs_view(r@);
        r.push((pairs[i].0.clone(), pairs[i].1.clone()));
        proof {
            assert(pairs_view(r@) =~= before.push(pairs_view(pairs@)[i as int]));
            assert(pairs_view(r@) =~= pairs_view(pairs@).take(i + 1));
        }
        i += 1;
    }
    proof {
        assert(pairs_view(pairs@).take(pairs.len() as int) =~= pairs_view(pairs@));
    }
    r
}

impl Clone for ClientConfig {
    fn clone(&self) -> (c: ClientConfig)
        ensures
            c@ == self@,
    {
        proof {
            use_type_invariant(self);
        }
        ClientConfig {
            url: self.url.clone(),
            database: self.database.clone(),
            user: self.user.clone(),
            password: self.password.clone(),
            compression: self.compression,
            options: copy_pairs(&self.options),
        }
    }
}

impl Default for ClientConfig {
    /// A client of the server on this machine, with nothing else set.
    fn default() -> (c: ClientConfig)
        ensures
            c@ == (ConfigView {
                url: "http://localhost:8123"@,
                database: None,
                user: None,
                password: None,
                compression: Compression::Disabled,
                options: Seq::empty(),
            }),
    {
        let c = ClientConfig {
            url: "http://localhost:8123".to_owned(),
            database: None,
            user: None,
            password: None,
            compression: Compression::Disabled,
            options: Vec::new(),
        };
        proof {
            assert(pairs_view(c.options@) =~= Seq::empty());
        }
        c
    }
}

impl ClientConfig {
    #[verifier::type_invariant]
    spec fn names_are_distinct(self) -> bool {
        distinct_names(pairs_view(self.options@))
    }

    /// The same configuration with this base URL.
    pub fn with_url(self, url: &str) -> (c: ClientConfig)
        ensures
            c@ == (ConfigView { url: url@, ..self@ }),
    {
        proof {
            use_type_invariant(&self);
        }
        ClientConfig { url: url.to_owned(), ..self }
    }

    /// The same configuration with this database.
    pub fn with_database(self, database: &str) -> (c: ClientConfig)
        ensures
            c@ == (ConfigView { database: Some(database@), ..self@ }),
    {
        proof {
            use_type_invariant(&self);
        }
        ClientConfig { database: Some(database.to_owned()), ..self }
    }

    /// The same configuration with this user.
    pub fn with_user(self, user: &str) -> (c: ClientConfig)
        ensures
            c@ == (ConfigView { user: Some(user@), ..self@ }),
    {
        proof {
            use_type_invariant(&self);
        }
        ClientConfig { user: Some(user.to_owned()), ..self }
    }

    /// The same configuration with this password.
    pub fn with_password(self, password: &str) -> (c: ClientConfig)
        ensures
            c@ == (ConfigView { password: Some(password@), ..self@ }),
    {
        proof {
            use_type_invariant(&self);
        }
        ClientConfig { password: Some(password.to_owned()), ..self }
    }

    /// The same configuration with this choice of compression.
    pub fn with_compression(self, compression: Compression) -> (c: ClientConfig)
        ensures
            c@ == (ConfigView { compression: compression, ..self@ }),
    {
        proof {
            use_type_invariant(&self);
        }
        ClientConfig { compression, ..self }
    }

    /// Sets the option `name` to `value`: where it was set before, the new value takes
    /// its place; else it comes last.
    pub fn with_option(self, name: &str, value: &str) -> (c: ClientConfig)
        ensures
            c@ == (ConfigView { options: with_setting(self@.options, name@, value@), ..self@ }),
    {
        proof {
            use_type_invariant(&self);
            lemma_setting_keeps_names_distinct(self@.options, name@, value@);
        }
        let ClientConfig { url, database, user, password, compression, options } = self;
        let options = set_option(options, name, value);
        ClientConfig { url, database, user, password, compression, options }
    }

    /// The options, in the order in which they are sent. No option is named twice.
    pub fn options(&self) -> (r: &Vec<(String, String)>)
        ensures
            pairs_view(r@) == self@.options,
            distinct_names(self@.options),
    {
        proof {
            use_type_invariant(self);
        }
        &self.options
    }

    /// The base URL.
    pub fn url(&self) -> (r: &str)
        ensures
            r@ == self@.url,
    {
        self.url.as_str()
    }

    /// The choice of compression.
    pub fn compression(&self) -> (r: Compression)
        ensures
            r == self@.compression,
    {
        self.compression
    }
}

/// The place of a setting among the first `n` options is its place among all.
proof fn lemma_index_extends(options: Seq<(Seq<char>, Seq<char>)>, name: Seq<char>, n: int)
    requires
        0 <= n <= options.len(),
        option_index(options.take(n), name) is Some,
    ensures
        option_index(options, name) == option_index(options.take(n), name),
    decreases options.len(),
{
    if n == options.len() {
        assert(options.take(n) =~= options);
    } else {
        assert(options.drop_last().take(n) =~= options.take(n));
        lemma_index_extends(options.drop_last(), name, n);
    }
}

/// Whether a query of `len` bytes goes out as POST: it does unless it only reads and is
/// short enough for the URL.
pub open spec fn use_post(read_only: bool, len: nat) -> bool {
    !read_only || len > 8192
}

/// The method that a query of this text goes out with.
pub open spec fn planned_method(text: Seq<char>, read_only: bool) -> Method {
    if use_post(read_only, utf8_len(text)) {
        Method::Post
    } else {
        Method::Get
    }
}

/// One pair or none.
pub open spec fn pair_if(present: bool, name: Seq<char>, value: Seq<char>) -> Seq<
    (Seq<char>, Seq<char>),
> {
    if present {
        seq![(name, value)]
    } else {
        Seq::empty()
    }
}

/// The parameters of the URL, in order: the database if one is configured; the query
/// text where the request is a GET, the read-only hint where a reading query goes out
/// as POST; the compression flag where compression is on; then the configured options.
pub open spec fn planned_pairs(c: ConfigView, text: Seq<char>, read_only: bool) -> Seq<
    (Seq<char>, Seq<char>),
> {
    let post = use_post(read_only, utf8_len(text));
    pair_if(c.database is Some, "database"@, c.database.unwrap_or(Seq::empty())) + pair_if(
        post && read_only,
        "readonly"@,
        "1"@,
    ) + pair_if(!post, "query"@, text) + pair_if(
        c.compression == Compression::Lz4,
        "compress"@,
        "1"@,
    ) + c.options
}

/// The body of the request: the query text where it goes out as POST, else nothing.
pub open spec fn planned_body(text: Seq<char>, read_only: bool) -> Seq<u8> {
    if use_post(read_only, utf8_len(text)) {
        encode_utf8(text)
    } else {
        Seq::empty()
    }
}

/// The headers of the request, in order: the length of the body in decimal, then the
/// user and the password where they are configured.
pub open spec fn planned_headers(c: ConfigView, body_len: nat) -> Seq<(Seq<char>, Seq<char>)> {
    seq![("content-length"@, decimal(body_len))] + pair_if(
        c.user is Some,
        "X-ClickHouse-User"@,
        c.user.unwrap_or(Seq::empty()),
    ) + pair_if(c.password is Some, "X-ClickHouse-Key"@, c.password.unwrap_or(Seq::empty()))
}

/// What is decided about a request before a URL is built: how it is sent, the parameters
/// of its URL and its body.
pub struct Plan {
    pub method: Method,
    pub pairs: Vec<(String, String)>,
    pub body: Vec<u8>,
}

/// Decides how the query `text` is sent for a client of this configuration.
pub fn plan(config: &ClientConfig, text: &str, read_only: bool) -> (p: Plan)
    ensures
        p.method == planned_method(text@, read_only),
        pairs_view(p.pairs@) == planned_pairs(config@, text@, read_only),
        p.body@ == planned_body(text@, read_only),
{
    let bytes = text.as_bytes_vec();
    let post = !read_only || bytes.len() > MAX_QUERY_LEN_TO_USE_GET;
    let mut pairs: Vec<(String, String)> = Vec::new();
    proof {
        assert(pairs_view(pairs@) =~= Seq::empty());
    }
    if let Some(database) = &config.database {
        pairs.push(("database".to_owned(), database.clone()));
    }
    let ghost first = pair_if(
        config@.database is Some,
        "database"@,
        config@.database.unwrap_or(Seq::empty()),
    );
    proof {
        assert(pairs_view(pairs@) =~= first);
    }
    if post && read_only {
        pairs.push(("readonly".to_owned(), "1".to_owned()));
    }
    let ghost second = first + pair_if(post && read_only, "readonly"@, "1"@);
    proof {
        assert(pairs_view(pairs@) =~= second);
    }
    if !post {
        pairs.push(("query".to_owned(), text.to_owned()));
    }
    let ghost third = second + pair_if(!post, "query"@, text@);
    proof {
        assert(pairs_view(pairs@) =~= third);
    }
    if let Compression::Lz4 = config.compression {
        pairs.push(("compress".to_owned(), "1".to_owned()));
    }
    let ghost fixed = third + pair_if(config@.compression == Compression::Lz4, "compress"@, "1"@);
    proof {
        assert(pairs_view(pairs@) =~= fixed);
    }
    let mut i: usize = 0;
    while i < config.options.len()
        invariant
            i <= config.options.len(),
            pairs_view(pairs@) == fixed + pairs_view(config.options@).take(i as int),
        decreases config.options.len() - i,
    {
        let ghost before = pairs_view(pairs@);
        pairs.push((config.options[i].0.clone(), config.options[i].1.clone()));
        proof {
            assert(pairs_view(pairs@) =~= before.push(pairs_view(config.options@)[i as int]));
            assert(pairs_view(pairs@) =~= fixed + pairs_view(config.options@).take(i + 1));
        }
        i += 1;
    }
    proof {
        assert(pairs_view(config.options@).take(config.options.len() as int) =~= pairs_view(
            config.options@,
        ));
    }
    let (method, body) = if post {
        (Method::Post, bytes)
    } else {
        (Method::Get, Vec::new())
    };
    Plan { method, pairs, body }
}

/// A request, ready to be sent.
#[derive(Debug, Clone, PartialEq, Eq)]
pub struct Request {
    pub method: Method,
    pub url: String,
    pub headers: Vec<(String, String)>,
    pub body: Vec<u8>,
}

/// A request, as contracts speak of it.
pub struct RequestView {
    pub method: Method,
    pub url: Seq<char>,
    pub headers: Seq<(Seq<char>, Seq<char>)>,
    pub body: Seq<u8>,
}

impl View for Request {
    type V = RequestView;

    open spec fn view(&self) -> RequestView {
        RequestView {
            method: self.method,
            url: self.url@,
            headers: pairs_view(self.headers@),
            body: self.body@,
        }
    }
}

/// Whether the URL is a request target, and whether the user and the password are header
/// values; the last two count only where the configuration has a user or a password.
#[derive(Debug, Clone, Copy, PartialEq, Eq)]
pub struct Verdicts {
    pub uri: bool,
    pub user: bool,
    pub password: bool,
}

/// What stops a request, if anything does: a URL that is no request target, else a user,
/// else a password that cannot be sent as a header.
pub open spec fn refusal(c: ConfigView, verdicts: Verdicts) -> Option<ConfigError> {
    if !verdicts.uri {
        Some(ConfigError::Uri)
    } else if c.user is Some && !verdicts.user {
        Some(ConfigError::UserHeader)
    } else if c.password is Some && !verdicts.password {
        Some(ConfigError::PasswordHeader)
    } else {
        None
    }
}

/// The request made of a plan and its URL, or what stops it.
pub open spec fn finished(
    c: ConfigView,
    method: Method,
    body: Seq<u8>,
    url: Seq<char>,
    verdicts: Verdicts,
) -> Result<RequestView, ConfigError> {
    match refusal(c, verdicts) {
        Some(e) => Err(e),
        None => Ok(
            RequestView { method: method, url: url, headers: planned_headers(c, body.len()), body: body },
        ),
    }
}

/// Puts the request together from a plan, the URL built for it and the verdicts on the
/// URL and on the credentials.
pub fn finish_request(config: &ClientConfig, plan: Plan, url: String, verdicts: Verdicts) -> (r: Result<
    Request,
    ConfigError,
>)
    ensures
        match finished(config@, plan.method, plan.body@, url@, verdicts) {
            Ok(request) => r is Ok && r->Ok_0@ == request,
            Err(e) => r == Err::<Request, ConfigError>(e),
        },
{
    if !verdicts.uri {
        return Err(ConfigError::Uri);
    }
    let mut headers: Vec<(String, String)> = Vec::new();
    headers.push(("content-length".to_owned(), decimal_string(plan.body.len() as u64)));
    let ghost h1 = seq![("content-length"@, decimal(plan.body@.len()))];
    proof {
        assert(pairs_view(headers@) =~= h1);
    }
    if let Some(user) = &config.user {
        if !verdicts.user {
            return Err(ConfigError::UserHeader);
        }
        headers.push(("X-ClickHouse-User".to_owned(), user.clone()));
    }
    let ghost h2 = h1 + pair_if(
        config@.user is Some,
        "X-ClickHouse-User"@,
        config@.user.unwrap_or(Seq::empty()),
    );
    proof {
        assert(pairs_view(headers@) =~= h2);
    }
    if let Some(password) = &config.password {
        if !verdicts.password {
            return Err(ConfigError::PasswordHeader);
        }
        headers.push(("X-ClickHouse-Key".to_owned(), password.clone()));
    }
    proof {
        assert(pairs_view(headers@) =~= planned_headers(config@, plan.body@.len()));
    }
    Ok(Request { method: plan.method, url, headers, body: plan.body })
}

/// The verdicts that the request of this URL and configuration gets.
pub open spec fn outside_verdicts(c: ConfigView, url: Seq<char>) -> Verdicts {
    Verdicts {
        uri: uri_accepts(url),
        user: match c.user {
            Some(user) => header_value(encode_utf8(user)),
            None => true,
        },
        password: match c.password {
            Some(password) => header_value(encode_utf8(password)),
            None => true,
        },
    }
}

/// The request that sends the query `text` for a client of this configuration, or why
/// there is none.
pub open spec fn assembled(c: ConfigView, text: Seq<char>, read_only: bool) -> Result<
    RequestView,
    ConfigError,
> {
    match request_url(c.url, planned_pairs(c, text, read_only)) {
        Err(e) => Err(e),
        Ok(url) => finished(
            c,
            planned_method(text, read_only),
            planned_body(text, read_only),
            url,
            outside_verdicts(c, url),
        ),
    }
}

/// Turns a rendered query into a request: GET with the text in the URL where the query
/// only reads and has at most 8192 bytes, else POST with the text as the body. Fails,
/// before anything is sent, where the configuration gives no valid URL or header.
pub fn assemble(config: &ClientConfig, text: &str, read_only: bool) -> (r: Result<
    Request,
    ConfigError,
>)
    ensures
        match assembled(config@, text@, read_only) {
            Ok(request) => r is Ok && r->Ok_0@ == request,
            Err(e) => r == Err::<Request, ConfigError>(e),
        },
{
    let plan = plan(config, text, read_only);
    let url = match build_url(config.url.as_str(), &plan.pairs) {
        Ok(url) => url,
        Err(e) => {
            return Err(e);
        },
    };
    let verdicts = Verdicts {
        uri: is_uri(url.as_str()),
        user: match &config.user {
            Some(user) => is_header_value(user.as_str()),
            None => true,
        },
        password: match &config.password {
            Some(password) => is_header_value(password.as_str()),
            None => true,
        },
    };
    finish_request(config, plan, url, verdicts)
}

/// A query that only reads goes out as GET, with its text in the URL and no body, as long
/// as the text has at most 8192 bytes. With one byte more it goes out as POST, with the
/// read-only hint in the URL and the text as its body.
pub proof fn lemma_method_by_length(c: ConfigView, text: Seq<char>)
    ensures
        utf8_len(text) <= 8192 ==> planned_method(text, true) == Method::Get && planned_pairs(
            c,
            text,
            true,
        ).contains(("query"@, text)) && planned_body(text, true) == Seq::<u8>::empty(),
        utf8_len(text) > 8192 ==> planned_method(text, true) == Method::Post && planned_pairs(
            c,
            text,
            true,
        ).contains(("readonly"@, "1"@)) && planned_body(text, true) == encode_utf8(text),
        assembled(c, text, true) matches Ok(request) ==> request.method == planned_method(
            text,
            true,
        ) && request.body == planned_body(text, true),
{
    let pairs = planned_pairs(c, text, true);
    let at: int = if c.database is Some {
        1
    } else {
        0
    };
    if utf8_len(text) <= 8192 {
        assert(pairs[at] == ("query"@, text));
    } else {
        assert(pairs[at] == ("readonly"@, "1"@));
    }
}

} // verus!
