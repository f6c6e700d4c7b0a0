use vstd::prelude::*;
use vstd::string::*;

verus! {

/// A named pool of server addresses, in the order they were declared.
#[derive(Debug, Clone, PartialEq, Eq)]
pub struct Backend {
    pub name: String,
    pub servers: Vec<String>,
}

/// The routing table built for one requested host.
#[derive(Debug, Clone, PartialEq, Eq)]
pub struct ProxyConfig {
    pub frontend_bind: String,
    pub frontend_host_rule: Option<String>,
    /// Backends by name; no two entries share a name.
    pub backends: Vec<Backend>,
    /// The server chosen for the requested host, empty when none was found.
    pub destination: String,
}

/// Why a configuration could not be used.
#[derive(PartialEq, Eq, Structural, Clone, Copy, Debug)]
pub enum ConfigError {
    /// The configuration source could not be read at all.
    Unreadable,
    /// No frontend bind address, or no backend was recorded.
    Invalid,
}

/// A backend as a name and its server addresses.
pub type BackendModel = (Seq<char>, Seq<Seq<char>>);

/// The mathematical content of a `ProxyConfig`.
pub struct ConfigModel {
    pub frontend_bind: Seq<char>,
    pub host_rule: Option<Seq<char>>,
    pub backends: Seq<BackendModel>,
    pub destination: Seq<char>,
}

/// The parser's state between two lines.
pub struct ParseState {
    pub config: ConfigModel,
    /// The backend named by a `use_backend` rule that matched the host.
    pub current: Option<Seq<char>>,
    /// Set by the matching `backend` line: the next `server` line is taken.
    pub armed: bool,
}

impl Backend {
    pub open spec fn view(&self) -> BackendModel {
        (self.name@, self.servers.deep_view())
    }
}

pub open spec fn backends_view(bs: Seq<Backend>) -> Seq<BackendModel> {
    bs.map_values(|b: Backend| b.view())
}

pub open spec fn opt_view(o: Option<String>) -> Option<Seq<char>> {
    match o {
        Some(s) => Some(s@),
        None => None,
    }
}

impl ProxyConfig {
    pub open spec fn view(&self) -> ConfigModel {
        ConfigModel {
            frontend_bind: self.frontend_bind@,
            host_rule: opt_view(self.frontend_host_rule),
            backends: backends_view(self.backends@),
            destination: self.destination@,
        }
    }

    /// Backend names are unique.
    pub open spec fn well_formed(&self) -> bool {
        names_unique(self.view().backends)
    }
}

/// Position of the first backend at or after `i` called `name`, or -1.
pub open spec fn index_from(bs: Seq<BackendModel>, name: Seq<char>, i: int) -> int
    decreases bs.len() - i,
{
    if i < 0 || i >= bs.len() {
        -1
    } else if bs[i].0 == name {
        i
    } else {
        index_from(bs, name, i + 1)
    }
}

pub open spec fn index_of(bs: Seq<BackendModel>, name: Seq<char>) -> int {
    index_from(bs, name, 0)
}

/// Records an empty backend under `name`, replacing one of that name.
pub open spec fn put_backend(bs: Seq<BackendModel>, name: Seq<char>) -> Seq<BackendModel> {
    let k = index_of(bs, name);
    if k >= 0 {
        bs.update(k, (name, Seq::empty()))
    } else {
        bs.push((name, Seq::empty()))
    }
}

pub open spec fn initial_state() -> ParseState {
    ParseState {
        config: ConfigModel {
            frontend_bind: Seq::empty(),
            host_rule: None,
            backends: Seq::empty(),
            destination: Seq::empty(),
        },
        current: None,
        armed: false,
    }
}

/// The effect of one tokenized line on the parser's state, for requested host `host`.
pub open spec fn step(st: ParseState, t: Seq<Seq<char>>, host: Seq<char>) -> ParseState {
    if t.len() == 0 {
        st
    } else if t[0] == "frontend"@ && t.len() > 1 {
        ParseState { config: ConfigModel { frontend_bind: t[1], ..st.config }, current: None, ..st }
    } else if t[0] == "use_backend"@ {
        if t.len() > 6 && t[6] == host {
            ParseState {
                config: ConfigModel {
                    host_rule: Some(t[6]),
                    backends: put_backend(st.config.backends, t[1]),
                    ..st.config
                },
                current: Some(t[1]),
                ..st
            }
        } else {
            st
        }
    } else if t[0] == "backend"@ && t.len() > 1 {
        if st.current == Some(t[1]) {
            ParseState {
                config: ConfigModel { backends: put_backend(st.config.backends, t[1]), ..st.config },
                armed: true,
                ..st
            }
        } else {
            st
        }
    } else if t[0] == "server"@ && t.len() > 2 {
        match st.current {
            Some(name) => {
                let k = index_of(st.config.backends, name);
                if k >= 0 && st.armed {
                    let b = st.config.backends[k];
                    ParseState {
                        config: ConfigModel {
                            backends: st.config.backends.update(k, (b.0, b.1.push(t[2]))),
                            destination: t[2],
                            ..st.config
                        },
                        armed: false,
                        ..st
                    }
                } else {
                    st
                }
            },
            None => st,
        }
    } else {
        st
    }
}

/// The state after the first `n` lines.
pub open spec fn run(lines: Seq<Seq<Seq<char>>>, host: Seq<char>, n: int) -> ParseState
    decreases n,
{
    if n <= 0 {
        initial_state()
    } else {
        step(run(lines, host, n - 1), lines[n - 1], host)
    }
}

/// The configuration that tokenized `lines` describe for requested host `host`.
pub open spec fn parse_model(lines: Seq<Seq<Seq<char>>>, host: Seq<char>) -> ConfigModel {
    run(lines, host, lines.len() as int).config
}

/// A configuration with no frontend bind address or no backend is unusable.
pub open spec fn model_invalid(c: ConfigModel) -> bool {
    c.frontend_bind.len() == 0 || c.backends.len() == 0
}

/// The lines of a text, as `str::lines` splits it.
pub uninterp spec fn lines_of(s: Seq<char>) -> Seq<Seq<char>>;

/// The whitespace-separated words of a line, as `str::split_whitespace` splits it.
pub uninterp spec fn words_of(line: Seq<char>) -> Seq<Seq<char>>;

/// The tokenized lines of a configuration text.
pub open spec fn tokenize(source: Seq<char>) -> Seq<Seq<Seq<char>>> {
    lines_of(source).map_values(|l: Seq<char>| words_of(l))
}

/// Relies on `str::lines`: the text split at line endings, endings removed.
#[verifier::external_body]
fn split_lines(s: &str) -> (r: Vec<String>)
    ensures
        r.deep_view() == lines_of(s@),
{
    s.lines().map(|l| l.to_string()).collect()
}

/// Relies on `str::split_whitespace`: the non-empty runs of non-whitespace characters.
#[verifier::external_body]
fn split_words(line: &str) -> (r: Vec<String>)
    ensures
        r.deep_view() == words_of(line@),
{
    line.split_whitespace().map(|w| w.to_string()).collect()
}


/// Position of the backend called `name`, if there is one.
fn find_backend(bs: &Vec<Backend>, name: &String) -> (r: Option<usize>)
    ensures
        match r {
            Some(k) => k < bs@.len() && index_of(backends_view(bs@), name@) == k as int,
            None => index_of(backends_view(bs@), name@) == -1,
        },
{
    let ghost v = backends_view(bs@);
    let mut i: usize = 0;
    while i < bs.len()
        invariant
            i <= bs@.len(),
            v == backends_view(bs@),
            index_from(v, name@, 0) == index_from(v, name@, i as int),
        decreases bs@.len() - i,
    {
        if bs[i].name == *name {
            return Some(i);
        }
        i = i + 1;
    }
    None
}

/// Records an empty backend under `name`, replacing one of that name.
fn insert_backend(bs: &mut Vec<Backend>, name: &String)
    ensures
        backends_view(final(bs)@) == put_backend(backends_view(old(bs)@), name@),
{
    let empty = Backend { name: name.clone(), servers: Vec::new() };
    let ghost ev = empty.view();
    assert(ev == (name@, Seq::<Seq<char>>::empty())) by {
        assert(empty.servers.deep_view() =~= Seq::<Seq<char>>::empty());
    }
    match find_backend(bs, name) {
        Some(k) => {
            bs.set(k, empty);
            assert(backends_view(bs@) =~= put_backend(backends_view(old(bs)@), name@));
        },
        None => {
            bs.push(empty);
            assert(backends_view(bs@) =~= put_backend(backends_view(old(bs)@), name@));
        },
    }
}

/// The parser's running state.
struct Parser {
    config: ProxyConfig,
    current: Option<String>,
    armed: bool,
}

impl Parser {
    spec fn view(&self) -> ParseState {
        ParseState { config: self.config.view(), current: opt_view(self.current), armed: self.armed }
    }

    fn new() -> (r: Parser)
        ensures
            r.view() == initial_state(),
    {
        let r = Parser {
            config: ProxyConfig {
                frontend_bind: String::new(),
                frontend_host_rule: None,
                backends: Vec::new(),
                destination: String::new(),
            },
            current: None,
            armed: false,
        };
        assert(backends_view(r.config.backends@) =~= Seq::empty());
        r
    }

    /// Applies one tokenized line.
    fn apply(&mut self, t: &Vec<String>, host: &String)
        ensures
            final(self).view() == step(old(self).view(), t.deep_view(), host@),
    {
        let ghost tv = t.deep_view();
        if t.len() == 0 {
            return;
        }
        assert(tv[0] == t@[0]@);
        let kw_frontend = "frontend".to_owned();
        let kw_use = "use_backend".to_owned();
        let kw_backend = "backend".to_owned();
        let kw_server = "server".to_owned();
        if t[0] == kw_frontend && t.len() > 1 {
            assert(tv[1] == t@[1]@);
            self.config.frontend_bind = t[1].clone();
            self.current = None;
        } else if t[0] == kw_use {
            if t.len() > 6 && t[6] == *host {
                assert(tv[1] == t@[1]@);
                assert(tv[6] == t@[6]@);
                insert_backend(&mut self.config.backends, &t[1]);
                self.config.frontend_host_rule = Some(t[6].clone());
                self.current = Some(t[1].clone());
            }
        } else if t[0] == kw_backend && t.len() > 1 {
            assert(tv[1] == t@[1]@);
            let is_current = match &self.current {
                Some(c) => *c == t[1],
                None => false,
            };
            if is_current {
                insert_backend(&mut self.config.backends, &t[1]);
                self.armed = true;
            }
        } else if t[0] == kw_server && t.len() > 2 {
            assert(tv[2] == t@[2]@);
            match &self.current {
                Some(name) => {
                    match find_backend(&self.config.backends, name) {
                        Some(k) => {
                            if self.armed {
                                let ghost old_bs = backends_view(self.config.backends@);
                                let addr = t[2].clone();
                                self.config.backends[k].servers.push(addr);
                                proof {
                                    let b = old_bs[k as int];
                                    assert(self.config.backends@[k as int].servers.deep_view()
                                        =~= b.1.push(tv[2]));
                                    assert(backends_view(self.config.backends@) =~= old_bs.update(
                                        k as int,
                                        (b.0, b.1.push(tv[2])),
                                    ));
                                }
                                self.config.destination = t[2].clone();
                                self.armed = false;
                            }
                        },
                        None => {},
                    }
                },
                None => {},
            }
        }
    }
}

/// Builds the configuration that tokenized lines describe for the requested host.
pub fn parse_lines(lines: &Vec<Vec<String>>, host: &str) -> (r: ProxyConfig)
    ensures
        r.view() == parse_model(lines.deep_view(), host@),
        r.well_formed(),
{
    let host = host.to_owned();
    let mut p = Parser::new();
    let mut i: usize = 0;
    while i < lines.len()
        invariant
            i <= lines@.len(),
            p.view() == run(lines.deep_view(), host@, i as int),
        decreases lines@.len() - i,
    {
        assert(lines.deep_view()[i as int] == lines@[i as int].deep_view());
        p.apply(&lines[i], &host);
        i = i + 1;
    }
    proof {
        lemma_run_unique(lines.deep_view(), host@, lines@.len() as int);
    }
    p.config
}

/// Parses a configuration text for the requested host: each line is split into
/// whitespace-separated words and the directives are applied in order.
pub fn parse_config(source: &str, host: &str) -> (r: ProxyConfig)
    ensures
        r.view() == parse_model(tokenize(source@), host@),
        r.well_formed(),
{
    let text = split_lines(source);
    let mut lines: Vec<Vec<String>> = Vec::new();
    let mut i: usize = 0;
    while i < text.len()
        invariant
            i <= text@.len(),
            text.deep_view() == lines_of(source@),
            lines@.len() == i,
            lines.deep_view() =~= tokenize(source@).take(i as int),
        decreases text@.len() - i,
    {
        let words = split_words(text[i].as_str());
        assert(text.deep_view()[i as int] == text@[i as int]@);
        let ghost wv = words.deep_view();
        lines.push(words);
        assert(lines.deep_view()[i as int] == wv);
        assert(lines.deep_view() =~= tokenize(source@).take(i as int + 1));
        i = i + 1;
    }
    assert(tokenize(source@).take(i as int) =~= tokenize(source@));
    parse_lines(&lines, host)
}


/// What loading yields: the configuration, or the reason it cannot be used.
pub open spec fn load_model(source: Option<Seq<char>>, host: Seq<char>) -> Result<ConfigModel, ConfigError> {
    match source {
        None => Err(ConfigError::Unreadable),
        Some(text) => {
            let c = parse_model(tokenize(text), host);
            if model_invalid(c) {
                Err(ConfigError::Invalid)
            } else {
                Ok(c)
            }
        },
    }
}

pub open spec fn opt_str_view(o: Option<&str>) -> Option<Seq<char>> {
    match o {
        Some(s) => Some(s@),
        None => None,
    }
}

/// Loads the configuration for the requested host from its text, `None` when
/// the text could not be read. A configuration without a frontend bind address
/// or without any backend is refused; one that routes nowhere is not.
pub fn load_config(source: Option<&str>, host: &str) -> (r: Result<ProxyConfig, ConfigError>)
    ensures
        match r {
            Ok(c) => load_model(opt_str_view(source), host@) == Ok::<ConfigModel, ConfigError>(c.view()),
            Err(e) => load_model(opt_str_view(source), host@) == Err::<ConfigModel, ConfigError>(e),
        },
        r is Ok ==> r.unwrap().well_formed(),
        source.is_none() <==> r == Err::<ProxyConfig, ConfigError>(ConfigError::Unreadable),
        source.is_some() && parse_model(tokenize(source.unwrap()@), host@).frontend_bind.len() == 0
            ==> r == Err::<ProxyConfig, ConfigError>(ConfigError::Invalid),
{
    match source {
        None => Err(ConfigError::Unreadable),
        Some(text) => {
            let config = parse_config(text, host);
            if config.frontend_bind.as_str().is_empty() || config.backends.len() == 0 {
                Err(ConfigError::Invalid)
            } else {
                Ok(config)
            }
        },
    }
}

/// The destination of a parsed configuration, `None` when no route was found.
pub open spec fn route_of(c: ConfigModel) -> Option<Seq<char>> {
    if c.destination.len() == 0 {
        None
    } else {
        Some(c.destination)
    }
}

impl ProxyConfig {
    /// The server address chosen for the requested host, if any.
    pub fn resolve(&self) -> (r: Option<String>)
        ensures
            opt_view(r) == route_of(self.view()),
    {
        if self.destination.as_str().is_empty() {
            None
        } else {
            Some(self.destination.clone())
        }
    }
}


/// A `use_backend` line whose host token is the requested host.
pub open spec fn rule_matches(t: Seq<Seq<char>>, host: Seq<char>) -> bool {
    t.len() > 6 && t[0] == "use_backend"@ && t[6] == host
}

/// A line that starts with one of the four directives.
pub open spec fn is_directive(t: Seq<Seq<char>>) -> bool {
    t.len() > 0 && (t[0] == "frontend"@ || t[0] == "use_backend"@ || t[0] == "backend"@ || t[0]
        == "server"@)
}

/// A line that cannot change the parser's state: no directive, or a rule for another host;
/// when no server is awaited, a `server` line too.
pub open spec fn quiet(t: Seq<Seq<char>>, host: Seq<char>, armed: bool) -> bool {
    ||| !is_directive(t)
    ||| (t[0] == "use_backend"@ && !rule_matches(t, host))
    ||| (!armed && t[0] == "server"@)
}

proof fn lemma_keywords_distinct()
    ensures
        "frontend"@ != "use_backend"@,
        "frontend"@ != "backend"@,
        "frontend"@ != "server"@,
        "use_backend"@ != "backend"@,
        "use_backend"@ != "server"@,
        "backend"@ != "server"@,
{
    reveal_strlit("frontend");
    reveal_strlit("use_backend");
    reveal_strlit("backend");
    reveal_strlit("server");
    assert("frontend"@.len() == 8);
    assert("use_backend"@.len() == 11);
    assert("backend"@.len() == 7);
    assert("server"@.len() == 6);
    assert("frontend"@[0] != "backend"@[0]);
}

proof fn lemma_quiet_step(st: ParseState, t: Seq<Seq<char>>, host: Seq<char>)
    requires
        quiet(t, host, st.armed),
    ensures
        step(st, t, host) == st,
{
    lemma_keywords_distinct();
}

proof fn lemma_quiet_span(lines: Seq<Seq<Seq<char>>>, host: Seq<char>, a: int, b: int)
    requires
        0 <= a <= b <= lines.len(),
        forall|m: int| a <= m < b ==> quiet(#[trigger] lines[m], host, run(lines, host, a).armed),
    ensures
        run(lines, host, b) == run(lines, host, a),
    decreases b - a,
{
    if b > a {
        lemma_quiet_span(lines, host, a, b - 1);
        lemma_quiet_step(run(lines, host, b - 1), lines[b - 1], host);
    }
}

proof fn lemma_index_found(bs: Seq<BackendModel>, name: Seq<char>, i: int, m: int)
    requires
        0 <= i <= m < bs.len(),
        bs[m].0 == name,
    ensures
        index_from(bs, name, i) >= 0,
    decreases m - i,
{
    if bs[i].0 != name {
        lemma_index_found(bs, name, i + 1, m);
    }
}

proof fn lemma_put_found(bs: Seq<BackendModel>, name: Seq<char>)
    ensures
        index_of(put_backend(bs, name), name) >= 0,
{
    let k = index_of(bs, name);
    let r = put_backend(bs, name);
    if k >= 0 {
        assert(index_from(bs, name, 0) < bs.len()) by {
            lemma_index_bound(bs, name, 0);
        }
        lemma_index_found(r, name, 0, k);
    } else {
        lemma_index_found(r, name, 0, bs.len() as int);
    }
}

proof fn lemma_index_bound(bs: Seq<BackendModel>, name: Seq<char>, i: int)
    requires
        0 <= i,
    ensures
        -1 <= index_from(bs, name, i) < bs.len(),
        index_from(bs, name, i) >= 0 ==> bs[index_from(bs, name, i)].0 == name,
    decreases bs.len() - i,
{
    if i < bs.len() && bs[i].0 != name {
        lemma_index_bound(bs, name, i + 1);
    }
}

/// A matching `use_backend` rule, then a `backend` line of the same name, then a
/// `server` line, with nothing in between or after that could change the route
/// (other hosts' rules and, after the server, further `server` lines are allowed):
/// the route found is exactly that server's address.
pub proof fn lemma_matched_rule_routes_to_server(
    lines: Seq<Seq<Seq<char>>>,
    host: Seq<char>,
    i: int,
    j: int,
    k: int,
)
    requires
        0 <= i < j < k < lines.len(),
        rule_matches(lines[i], host),
        lines[j].len() > 1 && lines[j][0] == "backend"@ && lines[j][1] == lines[i][1],
        lines[k].len() > 2 && lines[k][0] == "server"@,
        forall|m: int| i < m < j ==> quiet(#[trigger] lines[m], host, true),
        forall|m: int| j < m < k ==> quiet(#[trigger] lines[m], host, true),
        forall|m: int| k < m < lines.len() ==> quiet(#[trigger] lines[m], host, false),
    ensures
        parse_model(lines, host).destination == lines[k][2],
        lines[k][2].len() > 0 ==> route_of(parse_model(lines, host)) == Some(lines[k][2]),
{
    lemma_keywords_distinct();
    let name = lines[i][1];
    let s1 = run(lines, host, i + 1);
    lemma_put_found(run(lines, host, i).config.backends, name);
    assert(s1.current == Some(name));
    assert forall|m: int| i + 1 <= m < j implies quiet(#[trigger] lines[m], host, s1.armed) by {
        assert(quiet(lines[m], host, true));
    }
    lemma_quiet_span(lines, host, i + 1, j);
    let s2 = run(lines, host, j + 1);
    lemma_put_found(s1.config.backends, name);
    assert(s2.armed && s2.current == Some(name));
    lemma_quiet_span(lines, host, j + 1, k);
    let s3 = run(lines, host, k + 1);
    assert(index_of(s2.config.backends, name) >= 0);
    assert(s3.config.destination == lines[k][2] && !s3.armed);
    lemma_quiet_span(lines, host, k + 1, lines.len() as int);
}

/// A requested host that no `use_backend` rule names gets no route and no matched rule.
pub proof fn lemma_unmatched_host_has_no_route(lines: Seq<Seq<Seq<char>>>, host: Seq<char>)
    requires
        forall|m: int| 0 <= m < lines.len() ==> !rule_matches(#[trigger] lines[m], host),
    ensures
        route_of(parse_model(lines, host)) == None::<Seq<char>>,
        parse_model(lines, host).host_rule == None::<Seq<char>>,
{
    lemma_no_rule_run(lines, host, lines.len() as int);
}

proof fn lemma_no_rule_run(lines: Seq<Seq<Seq<char>>>, host: Seq<char>, n: int)
    requires
        0 <= n <= lines.len(),
        forall|m: int| 0 <= m < lines.len() ==> !rule_matches(#[trigger] lines[m], host),
    ensures
        run(lines, host, n).current == None::<Seq<char>>,
        run(lines, host, n).config.destination.len() == 0,
        run(lines, host, n).config.host_rule == None::<Seq<char>>,
    decreases n,
{
    if n > 0 {
        lemma_no_rule_run(lines, host, n - 1);
        assert(!rule_matches(lines[n - 1], host));
    }
}

/// Parsing holds no hidden state: two parses of the same text for the same host
/// give the same configuration.
pub proof fn lemma_parse_deterministic(source: Seq<char>, host: Seq<char>, a: ProxyConfig, b: ProxyConfig)
    requires
        a.view() == parse_model(tokenize(source), host),
        b.view() == parse_model(tokenize(source), host),
    ensures
        a.view() == b.view(),
{
}


/// No two backends share a name.
pub open spec fn names_unique(bs: Seq<BackendModel>) -> bool {
    forall|a: int, b: int| 0 <= a < b < bs.len() ==> #[trigger] bs[a].0 != #[trigger] bs[b].0
}

proof fn lemma_index_absent(bs: Seq<BackendModel>, name: Seq<char>, i: int)
    requires
        0 <= i,
        index_from(bs, name, i) == -1,
    ensures
        forall|m: int| i <= m < bs.len() ==> #[trigger] bs[m].0 != name,
    decreases bs.len() - i,
{
    if i < bs.len() {
        lemma_index_absent(bs, name, i + 1);
    }
}

proof fn lemma_step_unique(st: ParseState, t: Seq<Seq<char>>, host: Seq<char>)
    requires
        names_unique(st.config.backends),
    ensures
        names_unique(step(st, t, host).config.backends),
{
    let bs = st.config.backends;
    assert forall|name: Seq<char>| names_unique(#[trigger] put_backend(bs, name)) by {
        let k = index_of(bs, name);
        lemma_index_bound(bs, name, 0);
        if k < 0 {
            lemma_index_absent(bs, name, 0);
            let r = put_backend(bs, name);
            assert forall|a: int, b: int| 0 <= a < b < r.len() implies #[trigger] r[a].0
                != #[trigger] r[b].0 by {
                if b == bs.len() {
                    assert(bs[a].0 != name);
                }
            }
        } else {
            let r = put_backend(bs, name);
            assert forall|a: int, b: int| 0 <= a < b < r.len() implies #[trigger] r[a].0
                != #[trigger] r[b].0 by {
                assert(r[a].0 == bs[a].0 && r[b].0 == bs[b].0);
            }
        }
    }
    match st.current {
        Some(name) => {
            let k = index_of(bs, name);
            if k >= 0 && t.len() > 2 {
                lemma_index_bound(bs, name, 0);
                let b = bs[k];
                let r = bs.update(k, (b.0, b.1.push(t[2])));
                assert forall|x: int, y: int| 0 <= x < y < r.len() implies #[trigger] r[x].0
                    != #[trigger] r[y].0 by {
                    assert(r[x].0 == bs[x].0 && r[y].0 == bs[y].0);
                }
            }
        },
        None => {},
    }
}

proof fn lemma_run_unique(lines: Seq<Seq<Seq<char>>>, host: Seq<char>, n: int)
    ensures
        names_unique(run(lines, host, n).config.backends),
    decreases n,
{
    if n > 0 {
        lemma_run_unique(lines, host, n - 1);
        lemma_step_unique(run(lines, host, n - 1), lines[n - 1], host);
    }
}

} // verus!
