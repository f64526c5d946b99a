//! The lightweight `.proto` reader: it finds the package, the message, enum
//! and service declarations and the rpc methods of each service, line by
//! line, without a full protobuf parser.
use vstd::prelude::*;

use crate::text::{
    chars_of, ends_with, find, find_char, has_prefix, has_suffix, lines, lines_of,
    prefix_until, same, split_once_char, split_once_seq, starts_with, string_from, strip,
    strip_end, take_until, trim, trimmed, views, CharClass,
};

verus! {

// ---------------------------------------------------------------------------
// Data
// ---------------------------------------------------------------------------
/// A declaration found in a `.proto` file.
#[derive(Debug, Clone)]
pub struct ProtoSymbol {
    pub name: String,
    /// `message`, `enum` or `service`.
    pub kind: String,
    /// One-based line number.
    pub line: usize,
}

/// An rpc method of a service.
#[derive(Debug, Clone)]
pub struct ProtoMethodInfo {
    pub name: String,
    pub request_type: String,
    pub response_type: String,
    pub client_streaming: bool,
    pub server_streaming: bool,
    /// One-based line number.
    pub line: usize,
}

/// A service with its methods.
#[derive(Debug, Clone)]
pub struct ProtoServiceInfo {
    pub name: String,
    pub full_name: String,
    /// One-based line number.
    pub line: usize,
    pub methods: Vec<ProtoMethodInfo>,
}

/// What the reader found in a file.
#[derive(Debug)]
pub struct ProtoAnalysis {
    pub package_name: String,
    pub services: Vec<ProtoServiceInfo>,
    pub symbols: Vec<ProtoSymbol>,
    pub descriptor_available: bool,
    pub diagnostics: Vec<String>,
}

pub struct SymbolView {
    pub name: Seq<char>,
    pub kind: Seq<char>,
    pub line: int,
}

pub struct MethodView {
    pub name: Seq<char>,
    pub request_type: Seq<char>,
    pub response_type: Seq<char>,
    pub client_streaming: bool,
    pub server_streaming: bool,
    pub line: int,
}

pub struct ServiceView {
    pub name: Seq<char>,
    pub full_name: Seq<char>,
    pub line: int,
    pub methods: Seq<MethodView>,
}

pub struct AnalysisView {
    pub package_name: Seq<char>,
    pub services: Seq<ServiceView>,
    pub symbols: Seq<SymbolView>,
    pub descriptor_available: bool,
    pub diagnostics: Seq<Seq<char>>,
}

impl View for ProtoSymbol {
    type V = SymbolView;

    open spec fn view(&self) -> SymbolView {
        SymbolView { name: self.name@, kind: self.kind@, line: self.line as int }
    }
}

impl View for ProtoMethodInfo {
    type V = MethodView;

    open spec fn view(&self) -> MethodView {
        MethodView {
            name: self.name@,
            request_type: self.request_type@,
            response_type: self.response_type@,
            client_streaming: self.client_streaming,
            server_streaming: self.server_streaming,
            line: self.line as int,
        }
    }
}

pub open spec fn method_views(ms: Seq<ProtoMethodInfo>) -> Seq<MethodView> {
    Seq::new(ms.len(), |i: int| ms[i]@)
}

impl View for ProtoServiceInfo {
    type V = ServiceView;

    open spec fn view(&self) -> ServiceView {
        ServiceView {
            name: self.name@,
            full_name: self.full_name@,
            line: self.line as int,
            methods: method_views(self.methods@),
        }
    }
}

pub open spec fn service_views(ss: Seq<ProtoServiceInfo>) -> Seq<ServiceView> {
    Seq::new(ss.len(), |i: int| ss[i]@)
}

pub open spec fn symbol_views(ss: Seq<ProtoSymbol>) -> Seq<SymbolView> {
    Seq::new(ss.len(), |i: int| ss[i]@)
}

impl View for ProtoAnalysis {
    type V = AnalysisView;

    open spec fn view(&self) -> AnalysisView {
        AnalysisView {
            package_name: self.package_name@,
            services: service_views(self.services@),
            symbols: symbol_views(self.symbols@),
            descriptor_available: self.descriptor_available,
            diagnostics: self.diagnostics.deep_view(),
        }
    }
}

// ---------------------------------------------------------------------------
// Specifications
// ---------------------------------------------------------------------------
/// The value of a brace: `{` opens (+1), `}` closes (-1).
pub open spec fn brace_value(c: char) -> int {
    if c == '{' {
        1
    } else if c == '}' {
        -1
    } else {
        0
    }
}

/// Opening braces minus closing braces.
pub open spec fn delta(s: Seq<char>) -> int
    decreases s.len(),
{
    if s.len() == 0 {
        0
    } else {
        delta(s.drop_last()) + brace_value(s.last())
    }
}

pub open spec fn in_i32(x: int) -> bool {
    i32::MIN <= x <= i32::MAX
}

/// Counting the braces of `s` one by one from `base` stays within `i32`.
pub open spec fn count_fits(base: int, s: Seq<char>) -> bool {
    forall|k: int| 0 <= k <= s.len() ==> in_i32(base + #[trigger] delta(s.take(k)))
}

/// The name after `prefix`: up to the first whitespace or `{`.
pub open spec fn declaration(line: Seq<char>, prefix: Seq<char>) -> Option<Seq<char>> {
    if starts_with(line, prefix) {
        Some(take_until(line.skip(prefix.len() as int), CharClass::SpaceOr('{')))
    } else {
        None
    }
}

/// A request or response type, with whether it is a stream.
pub open spec fn rpc_type(raw: Seq<char>) -> (bool, Seq<char>) {
    let t = trim(raw);
    if starts_with(t, "stream "@) {
        (true, trim(t.skip("stream "@.len() as int)))
    } else {
        (false, t)
    }
}

/// The method that an `rpc Name (Req) returns (Rsp)` line declares.
pub open spec fn rpc_line(line: Seq<char>, line_no: int) -> Option<MethodView> {
    if !starts_with(line, "rpc "@) {
        None
    } else {
        let rest = trim(line.skip("rpc "@.len() as int));
        let name = trim(take_until(rest, CharClass::Only('(')));
        let i = find_char(rest, '(');
        if i < 0 {
            None
        } else {
            let after_name = rest.skip(i + 1);
            let j = find_char(after_name, ')');
            if j < 0 {
                None
            } else {
                let request_raw = after_name.take(j);
                let after_request = after_name.skip(j + 1);
                let k = find(after_request, "returns"@);
                if k < 0 {
                    None
                } else {
                    let after_returns = after_request.skip(k + "returns"@.len());
                    let l = find_char(after_returns, '(');
                    if l < 0 {
                        None
                    } else {
                        let tail = after_returns.skip(l + 1);
                        let m = find_char(tail, ')');
                        if m < 0 {
                            None
                        } else {
                            let request = rpc_type(request_raw);
                            let response = rpc_type(tail.take(m));
                            Some(
                                MethodView {
                                    name,
                                    request_type: request.1,
                                    response_type: response.1,
                                    client_streaming: request.0,
                                    server_streaming: response.0,
                                    line: line_no,
                                },
                            )
                        }
                    }
                }
            }
        }
    }
}

/// The reader's state between lines.
pub struct ScanState {
    pub package_name: Seq<char>,
    pub services: Seq<ServiceView>,
    pub symbols: Seq<SymbolView>,
    pub current: Option<ServiceView>,
    pub depth: int,
}

pub open spec fn scan_start() -> ScanState {
    ScanState {
        package_name: seq![],
        services: seq![],
        symbols: seq![],
        current: None,
        depth: 0,
    }
}

/// `s` followed by a symbol for a `kind` declaration on the line, if any.
pub open spec fn with_symbol(
    s: Seq<SymbolView>,
    t: Seq<char>,
    prefix: Seq<char>,
    kind: Seq<char>,
    line_no: int,
) -> Seq<SymbolView> {
    match declaration(t, prefix) {
        Some(n) => s.push(SymbolView { name: n, kind, line: line_no }),
        None => s,
    }
}

/// The service name qualified by the package.
pub open spec fn qualified(package_name: Seq<char>, name: Seq<char>) -> Seq<char> {
    if package_name.len() == 0 {
        name
    } else {
        package_name + seq!['.'] + name
    }
}

/// The state after one line.
#[verifier::opaque]
pub open spec fn scan_line(st: ScanState, line: Seq<char>, line_no: int) -> ScanState {
    let t = trim(line);
    let package_name = if starts_with(t, "package "@) {
        trim(strip_end(t.skip("package "@.len() as int), CharClass::Only(';')))
    } else {
        st.package_name
    };
    let symbols = with_symbol(
        with_symbol(st.symbols, t, "message "@, "message"@, line_no),
        t,
        "enum "@,
        "enum"@,
        line_no,
    );
    match declaration(t, "service "@) {
        Some(name) => {
            let d = delta(t);
            ScanState {
                package_name,
                services: match st.current {
                    Some(c) => st.services.push(c),
                    None => st.services,
                },
                symbols: symbols.push(SymbolView { name, kind: "service"@, line: line_no }),
                current: Some(
                    ServiceView {
                        name,
                        full_name: qualified(package_name, name),
                        line: line_no,
                        methods: seq![],
                    },
                ),
                depth: if d > 1 {
                    d
                } else {
                    1
                },
            }
        },
        None => {
            match st.current {
                None => ScanState { package_name, symbols, ..st },
                Some(c) => {
                    let c2 = if starts_with(t, "rpc "@) {
                        match rpc_line(t, line_no) {
                            Some(m) => ServiceView { methods: c.methods.push(m), ..c },
                            None => c,
                        }
                    } else {
                        c
                    };
                    let nd = st.depth + delta(t);
                    if nd <= 0 {
                        ScanState {
                            package_name,
                            symbols,
                            services: st.services.push(c2),
                            current: None,
                            depth: 0,
                        }
                    } else {
                        ScanState { package_name, symbols, current: Some(c2), depth: nd, ..st }
                    }
                },
            }
        },
    }
}

/// The state after the first `k` lines.
pub open spec fn scan(ls: Seq<Seq<char>>, k: int) -> ScanState
    decreases k,
{
    if k <= 0 {
        scan_start()
    } else {
        scan_line(scan(ls, k - 1), ls[k - 1], k)
    }
}

/// The reader's `i32` brace counters do not overflow on line `k`.
pub open spec fn line_fits(st: ScanState, line: Seq<char>) -> bool {
    let t = trim(line);
    &&& count_fits(0, t)
    &&& (declaration(t, "service "@) is None && st.current is Some) ==> in_i32(
        st.depth + delta(t),
    )
}

/// The reader's `i32` brace counters do not overflow anywhere in the text.
pub open spec fn scan_fits(content: Seq<char>) -> bool {
    let ls = lines(content);
    forall|k: int| 0 <= k < ls.len() ==> line_fits(scan(ls, k), #[trigger] ls[k])
}

/// The analysis of `content` for the file at `file_path`.
pub open spec fn lightweight(file_path: Seq<char>, content: Seq<char>) -> AnalysisView {
    let ls = lines(content);
    let st = scan(ls, ls.len() as int);
    AnalysisView {
        package_name: st.package_name,
        services: match st.current {
            Some(c) => st.services.push(c),
            None => st.services,
        },
        symbols: st.symbols,
        descriptor_available: false,
        diagnostics: seq!["Analyzed "@ + file_path],
    }
}

// ---------------------------------------------------------------------------
// Lemmas
// ---------------------------------------------------------------------------
pub proof fn lemma_delta_step(s: Seq<char>, k: int)
    requires
        0 <= k < s.len(),
    ensures
        delta(s.take(k + 1)) == delta(s.take(k)) + brace_value(s[k]),
{
    assert(s.take(k + 1).drop_last() =~= s.take(k));
}

// ---------------------------------------------------------------------------
// Laws
// ---------------------------------------------------------------------------
/// The methods of a service come in line order, after the service's line
/// and up to line `n`.
pub open spec fn methods_in_order(s: ServiceView, n: int) -> bool {
    &&& forall|p: int, q: int| 0 <= p < q < s.methods.len() ==> s.methods[p].line < s.methods[q].line
    &&& forall|p: int| 0 <= p < s.methods.len() ==> s.line < #[trigger] s.methods[p].line <= n
}

/// Symbols, services and each service's methods come in strictly
/// increasing line order, on lines 1 to `n`.
pub open spec fn in_line_order(symbols: Seq<SymbolView>, services: Seq<ServiceView>, n: int) -> bool {
    &&& forall|i: int, j: int| 0 <= i < j < symbols.len() ==> symbols[i].line < symbols[j].line
    &&& forall|i: int| 0 <= i < symbols.len() ==> 1 <= #[trigger] symbols[i].line <= n
    &&& forall|i: int, j: int| 0 <= i < j < services.len() ==> services[i].line < services[j].line
    &&& forall|i: int| 0 <= i < services.len() ==> 1 <= #[trigger] services[i].line <= n
    &&& forall|i: int| 0 <= i < services.len() ==> methods_in_order(#[trigger] services[i], n)
}

/// The services of a state, the open one last.
pub open spec fn all_services(st: ScanState) -> Seq<ServiceView> {
    match st.current {
        Some(c) => st.services.push(c),
        None => st.services,
    }
}

proof fn lemma_one_declaration(t: Seq<char>)
    ensures
        !(starts_with(t, "message "@) && starts_with(t, "enum "@)),
        !(starts_with(t, "message "@) && starts_with(t, "service "@)),
        !(starts_with(t, "enum "@) && starts_with(t, "service "@)),
{
    reveal_strlit("message ");
    reveal_strlit("enum ");
    reveal_strlit("service ");
    if starts_with(t, "message "@) {
        assert(t[0] == "message "@[0]);
    }
    if starts_with(t, "enum "@) {
        assert(t[0] == "enum "@[0]);
    }
}

proof fn lemma_order_widens(symbols: Seq<SymbolView>, services: Seq<ServiceView>, n: int)
    requires
        in_line_order(symbols, services, n),
    ensures
        in_line_order(symbols, services, n + 1),
{
    assert forall|i: int| 0 <= i < services.len() implies methods_in_order(#[trigger] services[i], n + 1) by {
        assert(methods_in_order(services[i], n));
    }
}

proof fn lemma_scan_in_order(ls: Seq<Seq<char>>, k: int)
    requires
        0 <= k <= ls.len(),
    ensures
        in_line_order(scan(ls, k).symbols, all_services(scan(ls, k)), k),
    decreases k,
{
    if k > 0 {
        lemma_scan_in_order(ls, k - 1);
        let st = scan(ls, k - 1);
        let t = trim(ls[k - 1]);
        lemma_one_declaration(t);
        lemma_order_widens(st.symbols, all_services(st), k - 1);
        reveal(scan_line);
        let n = scan(ls, k);
        assert(n == scan_line(st, ls[k - 1], k));
        let s0 = st.symbols;
        let s1 = with_symbol(with_symbol(s0, t, "message "@, "message"@, k), t, "enum "@, "enum"@, k);
        assert(s1 == s0 || (s1.len() == s0.len() + 1 && s1.drop_last() =~= s0 && s1.last().line == k));
        if declaration(t, "service "@) is Some {
            assert(s1 == s0);
            assert(n.symbols.drop_last() =~= s0);
        }
        let ns = n.symbols;
        assert(ns == s0 || (ns.len() == s0.len() + 1 && ns.drop_last() =~= s0 && ns.last().line == k));
        assert forall|i: int, j: int| 0 <= i < j < ns.len() implies ns[i].line < ns[j].line by {
            if ns != s0 {
                assert(ns[i] == s0[i]);
                if j < s0.len() {
                    assert(ns[j] == s0[j]);
                }
            }
        }
        assert forall|i: int| 0 <= i < ns.len() implies 1 <= #[trigger] ns[i].line <= k by {
            if ns != s0 && i < s0.len() {
                assert(ns[i] == s0[i]);
            }
        }
        let olds = all_services(st);
        let news = all_services(n);
        assert(news == olds || (news.len() == olds.len() && news.drop_last() =~= olds.drop_last()
            && news.last().line == olds.last().line && news.last().methods.len() == olds.last().methods.len() + 1
            && news.last().methods.drop_last() =~= olds.last().methods && news.last().methods.last().line == k)
            || (news.len() == olds.len() + 1 && news.drop_last() =~= olds && news.last().line == k
            && news.last().methods.len() == 0));
        assert forall|i: int| 0 <= i < news.len() implies methods_in_order(#[trigger] news[i], k) by {
            if i < olds.len() {
                assert(methods_in_order(olds[i], k));
                if news[i] != olds[i] {
                    assert(i == news.len() - 1);
                    let m = news[i].methods;
                    assert(m.drop_last() =~= olds[i].methods);
                    assert forall|p: int, q: int| 0 <= p < q < m.len() implies m[p].line < m[q].line by {
                        assert(m[p] == olds[i].methods[p]);
                        if q < m.len() - 1 {
                            assert(m[q] == olds[i].methods[q]);
                        }
                    }
                    assert forall|p: int| 0 <= p < m.len() implies news[i].line < #[trigger] m[p].line <= k by {
                        if p < m.len() - 1 {
                            assert(m[p] == olds[i].methods[p]);
                        }
                    }
                }
            }
        }
        assert forall|i: int, j: int| 0 <= i < j < news.len() implies news[i].line < news[j].line by {
            if j < olds.len() {
                assert(news[i].line == olds[i].line && news[j].line == olds[j].line);
            } else if i < olds.len() {
                assert(news[i].line == olds[i].line);
            }
        }
        assert forall|i: int| 0 <= i < news.len() implies 1 <= #[trigger] news[i].line <= k by {
            if i < olds.len() {
                assert(news[i].line == olds[i].line);
            }
        }
    }
}

/// The lightweight reader reports symbols, services and each service's
/// methods in strictly increasing line order, on lines of the text.
pub proof fn law_lightweight_in_line_order(file_path: Seq<char>, content: Seq<char>)
    ensures
        in_line_order(
            lightweight(file_path, content).symbols,
            lightweight(file_path, content).services,
            lines(content).len() as int,
        ),
{
    lemma_scan_in_order(lines(content), lines(content).len() as int);
}

// ---------------------------------------------------------------------------
// Executable functions
// ---------------------------------------------------------------------------
/// `base` plus the braces of `v`, and whether `v` opens a brace.
pub fn count_braces(v: &Vec<char>, base: i32) -> (r: i32)
    requires
        count_fits(base as int, v@),
    ensures
        r == base + delta(v@),
{
    let mut d = base;
    let mut i: usize = 0;
    assert(v@.take(0) =~= seq![]);
    while i < v.len()
        invariant
            i <= v.len(),
            count_fits(base as int, v@),
            d == base + delta(v@.take(i as int)),
        decreases v.len() - i,
    {
        proof {
            lemma_delta_step(v@, i as int);
            assert(in_i32(base + delta(v@.take(i + 1))));
        }
        if v[i] == '{' {
            d = d + 1;
        } else if v[i] == '}' {
            d = d - 1;
        }
        i = i + 1;
    }
    assert(v@.take(v.len() as int) =~= v@);
    d
}

/// Opening braces minus closing braces of a line.
pub fn brace_delta(line: &str) -> (r: i32)
    requires
        count_fits(0, line@),
    ensures
        r == delta(line@),
{
    count_braces(&chars_of(line), 0)
}

fn name_after(line: &Vec<char>, prefix: &Vec<char>) -> (r: Option<Vec<char>>)
    ensures
        match r {
            Some(n) => declaration(line@, prefix@) == Some(n@),
            None => declaration(line@, prefix@) is None,
        },
{
    if has_prefix(line, prefix) {
        let rest = crate::text::slice(line, prefix.len(), line.len());
        assert(rest@ =~= line@.skip(prefix@.len() as int));
        Some(prefix_until(&rest, CharClass::SpaceOr('{')))
    } else {
        None
    }
}

/// The declared name after `prefix` on a line: up to the first whitespace
/// or `{`; `None` when the line does not start with `prefix`.
pub fn declaration_name(line: &str, prefix: &str) -> (r: Option<String>)
    ensures
        match r {
            Some(n) => declaration(line@, prefix@) == Some(n@),
            None => declaration(line@, prefix@) is None,
        },
{
    match name_after(&chars_of(line), &chars_of(prefix)) {
        Some(n) => Some(string_from(&n)),
        None => None,
    }
}

fn rpc_type_chars(raw: &Vec<char>) -> (r: (bool, Vec<char>))
    ensures
        r.0 == rpc_type(raw@).0,
        r.1@ == rpc_type(raw@).1,
{
    let t = trimmed(raw);
    let stream = chars_of("stream ");
    if has_prefix(&t, &stream) {
        let rest = crate::text::slice(&t, stream.len(), t.len());
        assert(rest@ =~= t@.skip("stream "@.len() as int));
        (true, trimmed(&rest))
    } else {
        (false, t)
    }
}

/// A request or response type of an rpc line, and whether it streams.
pub fn parse_rpc_type(raw: &str) -> (r: (bool, String))
    ensures
        r.0 == rpc_type(raw@).0,
        r.1@ == rpc_type(raw@).1,
{
    let (s, t) = rpc_type_chars(&chars_of(raw));
    (s, string_from(&t))
}

fn rpc_line_chars(line: &Vec<char>, line_no: usize) -> (r: Option<ProtoMethodInfo>)
    ensures
        match r {
            Some(m) => rpc_line(line@, line_no as int) == Some(m@),
            None => rpc_line(line@, line_no as int) is None,
        },
{
    let rpc = chars_of("rpc ");
    if !has_prefix(line, &rpc) {
        return None;
    }
    let tail = crate::text::slice(line, rpc.len(), line.len());
    assert(tail@ =~= line@.skip("rpc "@.len() as int));
    let rest = trimmed(&tail);
    let name = trimmed(&prefix_until(&rest, CharClass::Only('(')));
    let after_name = match split_once_char(&rest, '(') {
        Some((_, b)) => b,
        None => return None,
    };
    let (request_raw, after_request) = match split_once_char(&after_name, ')') {
        Some(p) => p,
        None => return None,
    };
    let returns_word = chars_of("returns");
    let after_returns = match split_once_seq(&after_request, &returns_word) {
        Some((_, b)) => b,
        None => return None,
    };
    let after_open = match split_once_char(&after_returns, '(') {
        Some((_, b)) => b,
        None => return None,
    };
    let response_raw = match split_once_char(&after_open, ')') {
        Some((a, _)) => a,
        None => return None,
    };
    let (client_streaming, request_type) = rpc_type_chars(&request_raw);
    let (server_streaming, response_type) = rpc_type_chars(&response_raw);
    Some(
        ProtoMethodInfo {
            name: string_from(&name),
            request_type: string_from(&request_type),
            response_type: string_from(&response_type),
            client_streaming,
            server_streaming,
            line: line_no,
        },
    )
}

/// The method an `rpc Name (Req) returns (Rsp)` line declares, at line
/// `line_no`; `None` when the line has no such shape.
pub fn parse_rpc_line(line: &str, line_no: usize) -> (r: Option<ProtoMethodInfo>)
    ensures
        match r {
            Some(m) => rpc_line(line@, line_no as int) == Some(m@),
            None => rpc_line(line@, line_no as int) is None,
        },
{
    rpc_line_chars(&chars_of(line), line_no)
}

/// The reader's state between lines.
pub struct Scanner {
    pub package_name: Vec<char>,
    pub services: Vec<ProtoServiceInfo>,
    pub symbols: Vec<ProtoSymbol>,
    pub current: Option<ProtoServiceInfo>,
    pub depth: i32,
}

impl View for Scanner {
    type V = ScanState;

    open spec fn view(&self) -> ScanState {
        ScanState {
            package_name: self.package_name@,
            services: service_views(self.services@),
            symbols: symbol_views(self.symbols@),
            current: match self.current {
                Some(c) => Some(c@),
                None => None,
            },
            depth: self.depth as int,
        }
    }
}

fn text_of(s: &str) -> (r: String)
    ensures
        r@ == s@,
{
    string_from(&chars_of(s))
}

fn push_symbol(
    symbols: Vec<ProtoSymbol>,
    t: &Vec<char>,
    prefix: &str,
    kind: &str,
    line_no: usize,
) -> (r: Vec<ProtoSymbol>)
    ensures
        symbol_views(r@) == with_symbol(symbol_views(symbols@), t@, prefix@, kind@, line_no as int),
{
    let mut symbols = symbols;
    let ghost before = symbol_views(symbols@);
    match name_after(t, &chars_of(prefix)) {
        Some(n) => {
            let sym = ProtoSymbol { name: string_from(&n), kind: text_of(kind), line: line_no };
            symbols.push(sym);
            assert(symbol_views(symbols@) =~= before.push(sym@));
        },
        None => {},
    }
    symbols
}

/// The state after one more line.
fn scan_step(st: Scanner, line: &Vec<char>, line_no: usize) -> (r: Scanner)
    requires
        line_fits(st@, line@),
    ensures
        r@ == scan_line(st@, line@, line_no as int),
{
    reveal(scan_line);
    let ghost old_st = st@;
    let Scanner { package_name, services, symbols, current, depth } = st;
    let t = trimmed(line);
    let package = chars_of("package ");
    let package_name = if has_prefix(&t, &package) {
        let rest = crate::text::slice(&t, package.len(), t.len());
        assert(rest@ =~= t@.skip("package "@.len() as int));
        trimmed(&strip(&rest, CharClass::Only(';'), false, true))
    } else {
        package_name
    };
    let symbols = push_symbol(symbols, &t, "message ", "message", line_no);
    let symbols = push_symbol(symbols, &t, "enum ", "enum", line_no);
    let mut services = services;
    let mut symbols = symbols;
    match name_after(&t, &chars_of("service ")) {
        Some(name) => {
            let ghost sv = service_views(services@);
            match current {
                Some(c) => {
                    let ghost cv = c@;
                    services.push(c);
                    assert(service_views(services@) =~= sv.push(cv));
                },
                None => {},
            }
            let d = count_braces(&t, 0);
            let nd = if d > 1 {
                d
            } else {
                1
            };
            let mut full = crate::text::slice(&package_name, 0, package_name.len());
            if package_name.len() > 0 {
                full.push('.');
                crate::text::push_all(&mut full, &name);
                assert(full@ =~= qualified(package_name@, name@));
            } else {
                full = crate::text::slice(&name, 0, name.len());
                assert(full@ =~= qualified(package_name@, name@));
            }
            let ghost symv = symbol_views(symbols@);
            let sym = ProtoSymbol { name: string_from(&name), kind: text_of("service"), line: line_no };
            symbols.push(sym);
            assert(symbol_views(symbols@) =~= symv.push(sym@));
            let svc = ProtoServiceInfo {
                name: string_from(&name),
                full_name: string_from(&full),
                line: line_no,
                methods: Vec::new(),
            };
            assert(svc@.methods =~= seq![]);
            Scanner { package_name, services, symbols, current: Some(svc), depth: nd }
        },
        None => {
            match current {
                None => Scanner { package_name, services, symbols, current: None, depth },
                Some(c) => {
                    let mut c = c;
                    if has_prefix(&t, &chars_of("rpc ")) {
                        match rpc_line_chars(&t, line_no) {
                            Some(m) => {
                                let ghost mv = method_views(c.methods@);
                                let ghost m_view = m@;
                                c.methods.push(m);
                                assert(method_views(c.methods@) =~= mv.push(m_view));
                            },
                            None => {},
                        }
                    }
                    let d = count_braces(&t, 0);
                    let nd = depth + d;
                    if nd <= 0 {
                        let ghost sv = service_views(services@);
                        let ghost cv = c@;
                        services.push(c);
                        assert(service_views(services@) =~= sv.push(cv));
                        Scanner { package_name, services, symbols, current: None, depth: 0 }
                    } else {
                        Scanner { package_name, services, symbols, current: Some(c), depth: nd }
                    }
                },
            }
        },
    }
}

/// Reads the package, the declarations and the services with their rpc
/// methods from the text of a `.proto` file, line by line.
pub fn parse_proto_lightweight(file_path: &str, content: &str) -> (r: ProtoAnalysis)
    requires
        scan_fits(content@),
    ensures
        r@ == lightweight(file_path@, content@),
{
    let ls = lines_of(&chars_of(content));
    let ghost lsv = lines(content@);
    let mut st = Scanner {
        package_name: Vec::new(),
        services: Vec::new(),
        symbols: Vec::new(),
        current: None,
        depth: 0,
    };
    assert(service_views(st.services@) =~= seq![]);
    assert(symbol_views(st.symbols@) =~= seq![]);
    assert(st.package_name@ =~= seq![]);
    assert(st@ == scan(lsv, 0));
    let mut i: usize = 0;
    while i < ls.len()
        invariant
            i <= ls.len(),
            views(ls@) == lsv,
            lsv == lines(content@),
            scan_fits(content@),
            st@ == scan(lsv, i as int),
        decreases ls.len() - i,
    {
        proof {
            assert(views(ls@)[i as int] == ls@[i as int]@);
            assert(line_fits(scan(lsv, i as int), lsv[i as int]));
        }
        st = scan_step(st, &ls[i], i + 1);
        i = i + 1;
    }
    let Scanner { package_name, services, symbols, current, depth: _ } = st;
    let mut services = services;
    match current {
        Some(c) => {
            let ghost sv = service_views(services@);
            let ghost cv = c@;
            services.push(c);
            assert(service_views(services@) =~= sv.push(cv));
        },
        None => {},
    }
    let mut diagnostic = chars_of("Analyzed ");
    crate::text::push_all(&mut diagnostic, &chars_of(file_path));
    let mut diagnostics: Vec<String> = Vec::new();
    diagnostics.push(string_from(&diagnostic));
    let r = ProtoAnalysis {
        package_name: string_from(&package_name),
        services,
        symbols,
        descriptor_available: false,
        diagnostics,
    };
    assert(r@.diagnostics =~= seq!["Analyzed "@ + file_path@]);
    r
}

// ---------------------------------------------------------------------------
// Line numbers from the reader for services from a descriptor
// ---------------------------------------------------------------------------
/// A service the reader found stands for the service `s`: the same name, the
/// same full name, or a full name that ends with `s`'s name.
pub open spec fn service_matches(item: ServiceView, s: ServiceView) -> bool {
    item.name == s.name || item.full_name == s.full_name || ends_with(item.full_name, s.name)
}

/// The first service at or after `i` that stands for `s`, or -1.
pub open spec fn first_service(lw: Seq<ServiceView>, s: ServiceView, i: int) -> int
    decreases lw.len() - i,
{
    if i < 0 || i >= lw.len() {
        -1
    } else if service_matches(lw[i], s) {
        i
    } else {
        first_service(lw, s, i + 1)
    }
}

/// The first method at or after `i` named `name`, or -1.
pub open spec fn first_method(ms: Seq<MethodView>, name: Seq<char>, i: int) -> int
    decreases ms.len() - i,
{
    if i < 0 || i >= ms.len() {
        -1
    } else if ms[i].name == name {
        i
    } else {
        first_method(ms, name, i + 1)
    }
}

/// `m` with the line of the same-named method of `parsed`, if there is one.
pub open spec fn method_with_line(parsed: ServiceView, m: MethodView) -> MethodView {
    let q = first_method(parsed.methods, m.name, 0);
    if q < 0 {
        m
    } else {
        MethodView { line: parsed.methods[q].line, ..m }
    }
}

/// `s` with the lines of the first service of `lw` that stands for it.
pub open spec fn merge_one(lw: Seq<ServiceView>, s: ServiceView) -> ServiceView {
    let k = first_service(lw, s, 0);
    if k < 0 {
        s
    } else {
        let parsed = lw[k];
        ServiceView {
            line: parsed.line,
            methods: Seq::new(s.methods.len(), |j: int| method_with_line(parsed, s.methods[j])),
            ..s
        }
    }
}

pub proof fn lemma_first_service(lw: Seq<ServiceView>, s: ServiceView, i: int)
    requires
        0 <= i,
    ensures
        -1 <= first_service(lw, s, i) < lw.len(),
        first_service(lw, s, i) >= 0 ==> service_matches(lw[first_service(lw, s, i)], s) && i
            <= first_service(lw, s, i),
        forall|j: int|
            i <= j < lw.len() && (first_service(lw, s, i) < 0 || j < first_service(lw, s, i))
                ==> !service_matches(lw[j], s),
    decreases lw.len() - i,
{
    if i < lw.len() && !service_matches(lw[i], s) {
        lemma_first_service(lw, s, i + 1);
    }
}

pub proof fn lemma_first_method(ms: Seq<MethodView>, name: Seq<char>, i: int)
    requires
        0 <= i,
    ensures
        -1 <= first_method(ms, name, i) < ms.len(),
        first_method(ms, name, i) >= 0 ==> ms[first_method(ms, name, i)].name == name && i
            <= first_method(ms, name, i),
        forall|j: int|
            i <= j < ms.len() && (first_method(ms, name, i) < 0 || j < first_method(ms, name, i))
                ==> ms[j].name != name,
    decreases ms.len() - i,
{
    if i < ms.len() && ms[i].name != name {
        lemma_first_method(ms, name, i + 1);
    }
}

fn copy_method(m: &ProtoMethodInfo) -> (r: ProtoMethodInfo)
    ensures
        r@ == m@,
{
    ProtoMethodInfo {
        name: m.name.clone(),
        request_type: m.request_type.clone(),
        response_type: m.response_type.clone(),
        client_streaming: m.client_streaming,
        server_streaming: m.server_streaming,
        line: m.line,
    }
}

fn method_line_from(parsed: &ProtoServiceInfo, m: &ProtoMethodInfo) -> (r: ProtoMethodInfo)
    ensures
        r@ == method_with_line(parsed@, m@),
{
    proof {
        lemma_first_method(parsed@.methods, m@.name, 0);
    }
    let mut q: usize = 0;
    while q < parsed.methods.len()
        invariant
            q <= parsed.methods.len(),
            forall|j: int| 0 <= j < q ==> parsed@.methods[j].name != m@.name,
        decreases parsed.methods.len() - q,
    {
        assert(parsed@.methods[q as int] == parsed.methods@[q as int]@);
        if parsed.methods[q].name == m.name {
            proof {
                lemma_first_method(parsed@.methods, m@.name, 0);
                let f = first_method(parsed@.methods, m@.name, 0);
                if f >= 0 && f < q {
                    assert(parsed@.methods[f].name != m@.name);
                }
                assert(f == q);
            }
            let mut r = copy_method(m);
            r.line = parsed.methods[q].line;
            return r;
        }
        q = q + 1;
    }
    proof {
        lemma_first_method(parsed@.methods, m@.name, 0);
        let f = first_method(parsed@.methods, m@.name, 0);
        if f >= 0 {
            assert(parsed@.methods[f].name != m@.name);
        }
    }
    copy_method(m)
}

/// Service `s` with the lines that the reader found for it in `lightweight`.
fn merge_service(lightweight: &Vec<ProtoServiceInfo>, s: ProtoServiceInfo) -> (r: ProtoServiceInfo)
    ensures
        r@ == merge_one(service_views(lightweight@), s@),
{
    let ghost lw = service_views(lightweight@);
    proof {
        lemma_first_service(lw, s@, 0);
    }
    let s_full = chars_of(s.full_name.as_str());
    let s_name = chars_of(s.name.as_str());
    let mut k: usize = 0;
    while k < lightweight.len()
        invariant
            k <= lightweight.len(),
            lw == service_views(lightweight@),
            s_full@ == s@.full_name,
            s_name@ == s@.name,
            forall|j: int| 0 <= j < k ==> !service_matches(lw[j], s@),
        decreases lightweight.len() - k,
    {
        let item = &lightweight[k];
        assert(lw[k as int] == item@);
        if item.name == s.name || item.full_name == s.full_name || has_suffix(
            &chars_of(item.full_name.as_str()),
            &s_name,
        ) {
            proof {
                lemma_first_service(lw, s@, 0);
                let f = first_service(lw, s@, 0);
                if f >= 0 && f < k {
                    assert(!service_matches(lw[f], s@));
                }
                assert(f == k);
            }
            let mut methods: Vec<ProtoMethodInfo> = Vec::new();
            let mut j: usize = 0;
            while j < s.methods.len()
                invariant
                    j <= s.methods.len(),
                    k < lightweight.len(),
                    lw == service_views(lightweight@),
                    item@ == lw[k as int],
                    first_service(lw, s@, 0) == k,
                    method_views(methods@) =~= Seq::new(
                        j as nat,
                        |x: int| method_with_line(item@, s@.methods[x]),
                    ),
                decreases s.methods.len() - j,
            {
                let m = method_line_from(item, &s.methods[j]);
                let ghost before = method_views(methods@);
                methods.push(m);
                assert(method_views(methods@) =~= before.push(m@));
                j = j + 1;
            }
            let r = ProtoServiceInfo { name: s.name, full_name: s.full_name, line: item.line, methods };
            assert(r@.methods =~= merge_one(lw, s@).methods);
            return r;
        }
        k = k + 1;
    }
    proof {
        lemma_first_service(lw, s@, 0);
        let f = first_service(lw, s@, 0);
        if f >= 0 {
            assert(!service_matches(lw[f], s@));
        }
    }
    s
}

/// The services from a descriptor, each with the line numbers that the
/// lightweight reader found for the service and its methods; names, types
/// and the order stay as the descriptor gives them.
pub fn merge_service_lines(
    lightweight: Vec<ProtoServiceInfo>,
    descriptor_services: Vec<ProtoServiceInfo>,
) -> (r: Vec<ProtoServiceInfo>)
    ensures
        service_views(r@) == Seq::new(
            descriptor_services@.len(),
            |i: int| merge_one(service_views(lightweight@), descriptor_services@[i]@),
        ),
        r@.len() == descriptor_services@.len(),
        forall|i: int|
            0 <= i < r@.len() ==> {
                let (a, b) = (#[trigger] r@[i]@, descriptor_services@[i]@);
                &&& a.name == b.name
                &&& a.full_name == b.full_name
                &&& a.methods.len() == b.methods.len()
                &&& forall|j: int|
                    0 <= j < a.methods.len() ==> {
                        let (x, y) = (#[trigger] a.methods[j], b.methods[j]);
                        &&& x.name == y.name
                        &&& x.request_type == y.request_type
                        &&& x.response_type == y.response_type
                        &&& x.client_streaming == y.client_streaming
                        &&& x.server_streaming == y.server_streaming
                    }
            },
{
    let mut r: Vec<ProtoServiceInfo> = Vec::new();
    let mut rest = descriptor_services;
    let ghost ds = rest@;
    let ghost lw = service_views(lightweight@);
    let mut out: Vec<ProtoServiceInfo> = Vec::new();
    // Take the services from the back, then put them back in order.
    while rest.len() > 0
        invariant
            rest@ == ds.take(rest@.len() as int),
            rest@.len() <= ds.len(),
            r@.len() == ds.len() - rest@.len(),
            lw == service_views(lightweight@),
            forall|i: int|
                0 <= i < r@.len() ==> #[trigger] r@[i]@ == merge_one(
                    lw,
                    ds[ds.len() - 1 - i]@,
                ),
        decreases rest@.len(),
    {
        let s = rest.pop().unwrap();
        let m = merge_service(&lightweight, s);
        r.push(m);
        assert(rest@ =~= ds.take(rest@.len() as int));
    }
    while r.len() > 0
        invariant
            r@.len() + out@.len() == ds.len(),
            forall|i: int|
                0 <= i < r@.len() ==> #[trigger] r@[i]@ == merge_one(
                    lw,
                    ds[ds.len() - 1 - i]@,
                ),
            forall|i: int| 0 <= i < out@.len() ==> #[trigger] out@[i]@ == merge_one(lw, ds[i]@),
        decreases r@.len(),
    {
        let m = r.pop().unwrap();
        out.push(m);
    }
    proof {
        assert(service_views(out@) =~= Seq::new(ds.len(), |i: int| merge_one(lw, ds[i]@)));
        assert forall|i: int| 0 <= i < out@.len() implies {
            let (a, b) = (#[trigger] out@[i]@, ds[i]@);
            &&& a.name == b.name
            &&& a.full_name == b.full_name
            &&& a.methods.len() == b.methods.len()
            &&& forall|j: int|
                0 <= j < a.methods.len() ==> {
                    let (x, y) = (#[trigger] a.methods[j], b.methods[j]);
                    &&& x.name == y.name
                    &&& x.request_type == y.request_type
                    &&& x.response_type == y.response_type
                    &&& x.client_streaming == y.client_streaming
                    &&& x.server_streaming == y.server_streaming
                }
        } by {
            assert(out@[i]@ == merge_one(lw, ds[i]@));
        }
    }
    out
}

/// Whether a line leaves a service open, and with how many braces.
proof fn lemma_scan_line_depth(st: ScanState, line: Seq<char>, line_no: int)
    ensures
        ({
            let t = trim(line);
            let n = scan_line(st, line, line_no);
            &&& declaration(t, "service "@) is Some ==> n.current is Some && n.depth == (if delta(t)
                > 1 {
                delta(t)
            } else {
                1
            })
            &&& (declaration(t, "service "@) is None && st.current is None) ==> n.current is None
            &&& (declaration(t, "service "@) is None && st.current is Some) ==> (if st.depth
                + delta(t) <= 0 {
                n.current is None
            } else {
                n.current is Some && n.depth == st.depth + delta(t)
            })
        }),
{
    reveal(scan_line);
}

/// Whether the reader's brace counters stay within `i32` on `content`: the
/// condition of `parse_proto_lightweight`.
pub fn scan_fits_check(content: &str) -> (r: bool)
    ensures
        r == scan_fits(content@),
{
    let ls = lines_of(&chars_of(content));
    let ghost lsv = lines(content@);
    let service = chars_of("service ");
    let mut open = false;
    let mut depth: i32 = 0;
    let mut j: usize = 0;
    while j < ls.len()
        invariant
            j <= ls.len(),
            views(ls@) == lsv,
            lsv == lines(content@),
            service@ == "service "@,
            open == (scan(lsv, j as int).current is Some),
            open ==> scan(lsv, j as int).depth == depth,
            forall|k: int| 0 <= k < j ==> line_fits(scan(lsv, k), #[trigger] lsv[k]),
        decreases ls.len() - j,
    {
        assert(lsv[j as int] == ls@[j as int]@);
        let t = trimmed(&ls[j]);
        let ghost st = scan(lsv, j as int);
        proof {
            assert(scan(lsv, j + 1) == scan_line(st, lsv[j as int], j + 1));
            lemma_scan_line_depth(st, lsv[j as int], j + 1);
        }
        match crate::source::count_checked(&t, 0) {
            None => {
                return false;
            },
            Some(d) => {
                if has_prefix(&t, &service) {
                    assert(declaration(t@, "service "@) is Some);
                    open = true;
                    depth = if d > 1 {
                        d
                    } else {
                        1
                    };
                } else {
                    assert(declaration(t@, "service "@) is None);
                    if open {
                        let nd: i64 = depth as i64 + d as i64;
                        if nd < i32::MIN as i64 || nd > i32::MAX as i64 {
                            return false;
                        }
                        if nd <= 0 {
                            open = false;
                            depth = 0;
                        } else {
                            depth = nd as i32;
                        }
                    }
                }
            },
        }
        j = j + 1;
    }
    true
}

} // verus!
