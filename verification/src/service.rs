//! Finding the local service, its addresses, and its list of sessions.

use crate::json::{elements, json_parsed, parse, Json, JsonTree};
use crate::state::{reports, SessionInfo, SessionReport};
use crate::text::{
    decimal, decimal_digits, denoted, ends_in, has_ending, is_white_space, join2, join3,
    law_decimal, law_endings, law_trimmed, trim, trimmed,
};
use vstd::prelude::*;

verus! {

/// The port on which a service listens by default.
pub const BASE_PORT: u16 = 58627;

/// A service whose port is taken tries this many ports in all, counting up.
pub const MAX_PORT_TRIES: u16 = 100;

/// The token in a text: the text without white space around it, unless nothing is left.
pub open spec fn token_in(text: Seq<char>) -> Option<Seq<char>> {
    if trimmed(text).len() == 0 {
        None
    } else {
        Some(trimmed(text))
    }
}

/// The token in the token file's text, if the file could be read: the text without white
/// space around it, unless nothing is left.
pub fn read_token(text: Option<&str>) -> (r: Option<String>)
    ensures
        match r {
            Some(token) => text is Some && token_in(text->0@) == Some(token@),
            None => text is None || token_in(text->0@) is None,
        },
{
    match text {
        Some(text) => {
            let token = trim(text);
            if token.is_empty() {
                None
            } else {
                Some(token.to_owned())
            }
        },
        None => None,
    }
}

/// The port that a service instance reports: the member `port`, if it is a port number.
pub open spec fn reported_port(tree: JsonTree) -> Option<u16> {
    match tree.field("port"@) {
        Some(port) => match port.unsigned() {
            Some(n) if n <= u16::MAX => Some(n as u16),
            _ => None,
        },
        None => None,
    }
}

/// The port in the text of an instance file.
pub open spec fn port_in_text(text: Seq<char>) -> Option<u16> {
    match json_parsed(text) {
        Some(tree) => reported_port(tree),
        None => None,
    }
}

/// The port in an instance file, given its name and its text: only files with names in
/// `.json` count.
pub open spec fn port_in_file(file: (String, String)) -> Option<u16> {
    if ends_in(file.0@, ".json"@) {
        port_in_text(file.1@)
    } else {
        None
    }
}

/// The ports in a list of files, without the files that hold none.
pub open spec fn ports_in_files(files: Seq<(String, String)>) -> Seq<u16>
    decreases files.len(),
{
    if files.len() == 0 {
        Seq::empty()
    } else {
        let front = ports_in_files(files.drop_last());
        match port_in_file(files.last()) {
            Some(port) => front.push(port),
            None => front,
        }
    }
}

/// Reads the port out of an instance file's content.
pub fn instance_port(instance: &Json) -> (r: Option<u16>)
    ensures
        r == reported_port(instance@),
{
    match instance.get("port") {
        Some(port) => match port.as_u64() {
            Some(n) => if n <= 65535 {
                Some(n as u16)
            } else {
                None
            },
            None => None,
        },
        None => None,
    }
}

/// The ports that the instance files report, in their order, given the names and the texts
/// of all files in their place. A file may be left over from an instance that has ended.
pub fn instance_ports(files: &Vec<(String, String)>) -> (r: Vec<u16>)
    ensures
        r@ == ports_in_files(files@),
{
    let mut ports: Vec<u16> = Vec::new();
    let mut i: usize = 0;
    proof {
        assert(files@.take(0) =~= Seq::<(String, String)>::empty());
    }
    while i < files.len()
        invariant
            i <= files.len(),
            ports@ == ports_in_files(files@.take(i as int)),
        decreases files.len() - i,
    {
        proof {
            assert(files@.take(i + 1).drop_last() =~= files@.take(i as int));
        }
        if has_ending(files[i].0.as_str(), ".json") {
            match parse(files[i].1.as_str()) {
                Some(instance) => {
                    match instance_port(&instance) {
                        Some(port) => {
                            ports.push(port);
                        },
                        None => {},
                    }
                },
                None => {},
            }
        }
        i = i + 1;
    }
    proof {
        assert(files@.take(files.len() as int) =~= files@);
    }
    ports
}

/// The ports at which a service is looked for: those that instances report, then the
/// default ones from the first on.
pub open spec fn probe_order(reported: Seq<u16>) -> Seq<u16> {
    reported + Seq::new(MAX_PORT_TRIES as nat, |i: int| (BASE_PORT + i) as u16)
}

/// A search for the port of a running service, one probe at a time.
pub struct PortSearch {
    order: Vec<u16>,
    next: usize,
}

impl PortSearch {
    /// The ports to probe, in order.
    pub closed spec fn order(&self) -> Seq<u16> {
        self.order@
    }

    /// How many of them have been probed without success.
    pub closed spec fn failed(&self) -> nat {
        self.next as nat
    }

    /// The port to probe next, if one is left.
    pub fn candidate(&self) -> (r: Option<u16>)
        ensures
            r == next_candidate(self.order(), self.failed()),
    {
        if self.next < self.order.len() {
            Some(self.order[self.next])
        } else {
            None
        }
    }

    /// Takes the answer to a probe of the candidate. Gives the port if a service answers
    /// there.
    pub fn report(&mut self, healthy: bool) -> (r: Option<u16>)
        ensures
            final(self).order() == old(self).order(),
            final(self).failed() == probed(old(self).order(), old(self).failed(), healthy).0,
            r == probed(old(self).order(), old(self).failed(), healthy).1,
    {
        if self.next < self.order.len() {
            if healthy {
                return Some(self.order[self.next]);
            }
            self.next = self.next + 1;
        }
        None
    }
}

pub open spec fn next_candidate(order: Seq<u16>, failed: nat) -> Option<u16> {
    if failed < order.len() {
        Some(order[failed as int])
    } else {
        None
    }
}

/// How many probes have failed after one more, and the port if a service answered.
pub open spec fn probed(order: Seq<u16>, failed: nat, healthy: bool) -> (nat, Option<u16>) {
    match next_candidate(order, failed) {
        Some(port) => if healthy {
            (failed, Some(port))
        } else {
            (failed + 1, None)
        },
        None => (failed, None),
    }
}

/// Starts the search for a service's port.
pub fn find_port(reported: Vec<u16>) -> (r: PortSearch)
    ensures
        r.order() == probe_order(reported@),
        r.failed() == 0,
{
    let mut order = reported;
    let mut i: u16 = 0;
    while i < MAX_PORT_TRIES
        invariant
            i <= MAX_PORT_TRIES,
            order@ == reported@ + Seq::new(i as nat, |k: int| (BASE_PORT + k) as u16),
        decreases MAX_PORT_TRIES - i,
    {
        order.push(BASE_PORT + i);
        i = i + 1;
        proof {
            assert(order@ =~= reported@ + Seq::new(i as nat, |k: int| (BASE_PORT + k) as u16));
        }
    }
    PortSearch { order, next: 0 }
}

/// What a search that has `failed` probes behind it comes to when its further probes are
/// answered by `answers`, in order.
pub open spec fn search_outcome(order: Seq<u16>, failed: nat, answers: Seq<bool>) -> Option<u16>
    decreases answers.len(),
{
    if answers.len() == 0 {
        None
    } else {
        let (failed, found) = probed(order, failed, answers[0]);
        match found {
            Some(port) => Some(port),
            None => search_outcome(order, failed, answers.drop_first()),
        }
    }
}

/// The search finds the first port in its order at which a service answers: nothing if
/// none does, and never a port after one that does.
pub proof fn law_first_answering_port(order: Seq<u16>, failed: nat, answers: Seq<bool>)
    ensures
        match search_outcome(order, failed, answers) {
            Some(port) => exists|i: int|
                0 <= i < answers.len() && failed + i < order.len() && #[trigger] answers[i]
                    && order[failed + i] == port && (forall|j: int|
                    0 <= j < i ==> !#[trigger] answers[j]),
            None => forall|i: int|
                0 <= i < answers.len() && failed + i < order.len() ==> !#[trigger] answers[i],
        },
    decreases answers.len(),
{
    if answers.len() > 0 && failed >= order.len() {
        law_first_answering_port(order, failed, answers.drop_first());
    }
    if answers.len() > 0 && failed < order.len() && !answers[0] {
        let rest = answers.drop_first();
        law_first_answering_port(order, failed + 1, rest);
        match search_outcome(order, failed + 1, rest) {
            Some(port) => {
                let i = choose|i: int|
                    0 <= i < rest.len() && failed + 1 + i < order.len() && #[trigger] rest[i]
                        && order[failed + 1 + i] == port && (forall|j: int|
                        0 <= j < i ==> !#[trigger] rest[j]);
                assert(answers[i + 1]);
                assert forall|j: int| 0 <= j < i + 1 implies !#[trigger] answers[j] by {
                    if j > 0 {
                        assert(!rest[j - 1]);
                    }
                }
            },
            None => {
                assert forall|i: int|
                    0 <= i < answers.len() && failed + i < order.len() implies !#[trigger] answers[i] by {
                    if i > 0 {
                        assert(!rest[i - 1]);
                    }
                }
            },
        }
    }
}

/// The ports that instances report are probed before all default ones, and all default
/// ones are probed.
pub proof fn law_reported_ports_first(reported: Seq<u16>)
    ensures
        probe_order(reported).len() == reported.len() + MAX_PORT_TRIES,
        forall|i: int|
            0 <= i < reported.len() ==> #[trigger] probe_order(reported)[i] == reported[i],
        forall|i: int|
            0 <= i < MAX_PORT_TRIES ==> #[trigger] probe_order(reported)[reported.len() + i]
                == BASE_PORT + i,
{
}

/// The address of a path at the service.
pub open spec fn address(scheme: Seq<char>, port: u16, path: Seq<char>) -> Seq<char> {
    scheme + "://127.0.0.1:"@ + decimal_digits(port as nat) + path
}

fn local_address(scheme: &str, port: u16, path: &str) -> (r: String)
    ensures
        r@ == address(scheme@, port, path@),
{
    let digits = decimal(port);
    let host = join3(scheme, "://127.0.0.1:", digits.as_str());
    join2(host.as_str(), path)
}

/// Where a running service answers that it is well.
pub fn healthz_url(port: u16) -> (r: String)
    ensures
        r@ == address("http"@, port, "/api/v1/healthz"@),
{
    local_address("http", port, "/api/v1/healthz")
}

/// Where the service lists its sessions, the first hundred of them.
pub fn sessions_url(port: u16) -> (r: String)
    ensures
        r@ == address("http"@, port, "/api/v1/sessions?page_size=100"@),
{
    local_address("http", port, "/api/v1/sessions?page_size=100")
}

/// Where the service streams its events.
pub fn events_url(port: u16) -> (r: String)
    ensures
        r@ == address("ws"@, port, "/api/v1/ws"@),
{
    local_address("ws", port, "/api/v1/ws")
}

/// The address of the web interface of the service at a port, for a token.
pub open spec fn web_address(token: Seq<char>, port: u16) -> Seq<char> {
    address("http"@, port, "/#token="@) + token
}

/// The address of the web interface, with the token that it asks for.
pub fn web_url(token: Option<&str>, port: Option<u16>) -> (r: Option<String>)
    ensures
        match r {
            Some(url) => token is Some && port is Some && url@ == web_address(token->0@, port->0),
            None => token is None || port is None,
        },
{
    match (token, port) {
        (Some(token), Some(port)) => {
            let front = local_address("http", port, "/#token=");
            Some(join2(front.as_str(), token))
        },
        _ => None,
    }
}

/// The entries of a session list: under `data`, either the member `items` or `data` itself.
pub open spec fn session_entries(envelope: JsonTree) -> Option<Seq<JsonTree>> {
    match envelope.field("data"@) {
        Some(data) => match data.field("items"@) {
            Some(items) => match items.array() {
                Some(entries) => Some(entries),
                None => data.array(),
            },
            None => data.array(),
        },
        None => None,
    }
}

/// What an entry of a session list reports, if it names its session.
pub open spec fn entry_report(entry: JsonTree) -> Option<SessionReport> {
    match entry.text_field("id"@) {
        Some(id) => Some(
            SessionReport {
                id,
                busy: match entry.field("busy"@) {
                    Some(busy) => busy.boolean() == Some(true),
                    None => false,
                },
                pending: match entry.text_field("pending_interaction"@) {
                    Some(pending) => pending,
                    None => "none"@,
                },
            },
        ),
        None => None,
    }
}

/// The reports in a list of entries, without the entries that name no session.
pub open spec fn entry_reports(entries: Seq<JsonTree>) -> Seq<SessionReport>
    decreases entries.len(),
{
    if entries.len() == 0 {
        Seq::empty()
    } else {
        let front = entry_reports(entries.drop_last());
        match entry_report(entries.last()) {
            Some(report) => front.push(report),
            None => front,
        }
    }
}

/// The reports in the service's answer.
pub open spec fn listed_reports(envelope: JsonTree) -> Seq<SessionReport> {
    match session_entries(envelope) {
        Some(entries) => entry_reports(entries),
        None => Seq::empty(),
    }
}

fn session_info(entry: &Json) -> (r: Option<SessionInfo>)
    ensures
        match r {
            Some(info) => entry_report(entry@) == Some(info@),
            None => entry_report(entry@) is None,
        },
{
    match entry.get_str("id") {
        Some(id) => {
            let busy: bool = match entry.get("busy") {
                Some(busy) => match busy.as_bool() {
                    Some(b) => b,
                    None => false,
                },
                None => false,
            };
            let pending: String = match entry.get_str("pending_interaction") {
                Some(pending) => pending.to_owned(),
                None => "none".to_owned(),
            };
            Some(SessionInfo { id: id.to_owned(), busy, pending })
        },
        None => None,
    }
}

fn session_infos(entries: &Vec<Json>) -> (r: Vec<SessionInfo>)
    ensures
        reports(r@) == entry_reports(elements(entries@)),
{
    let ghost trees = elements(entries@);
    let mut out: Vec<SessionInfo> = Vec::new();
    let mut i: usize = 0;
    proof {
        assert(trees.take(0) =~= Seq::<JsonTree>::empty());
        assert(reports(out@) =~= Seq::<SessionReport>::empty());
    }
    while i < entries.len()
        invariant
            i <= entries.len(),
            trees == elements(entries@),
            reports(out@) == entry_reports(trees.take(i as int)),
        decreases entries.len() - i,
    {
        proof {
            assert(trees.take(i + 1).drop_last() =~= trees.take(i as int));
            assert(trees.take(i + 1).last() == entries[i as int]@);
        }
        match session_info(&entries[i]) {
            Some(info) => {
                let ghost before = out@;
                out.push(info);
                proof {
                    assert(reports(out@) =~= reports(before).push(info@));
                }
            },
            None => {},
        }
        i = i + 1;
    }
    proof {
        assert(trees.take(entries.len() as int) =~= trees);
    }
    out
}

/// Reads the sessions out of the service's answer.
pub fn session_list(envelope: &Json) -> (r: Vec<SessionInfo>)
    ensures
        reports(r@) == listed_reports(envelope@),
{
    let none: Vec<SessionInfo> = Vec::new();
    proof {
        assert(reports(none@) =~= Seq::<SessionReport>::empty());
    }
    match envelope.get("data") {
        Some(data) => {
            match data.get("items") {
                Some(items) => match items.as_array() {
                    Some(entries) => {
                        return session_infos(entries);
                    },
                    None => {},
                },
                None => {},
            }
            match data.as_array() {
                Some(entries) => session_infos(entries),
                None => none,
            }
        },
        None => none,
    }
}

/// The reports in the text of an answer, if there was one.
pub open spec fn answered_reports(answer: Option<Seq<char>>) -> Seq<SessionReport> {
    match answer {
        Some(text) => match json_parsed(text) {
            Some(envelope) => listed_reports(envelope),
            None => Seq::empty(),
        },
        None => Seq::empty(),
    }
}

/// The sessions in the text of the service's answer, if there was one; none where it is
/// no JSON.
pub fn fetch_sessions(answer: Option<&str>) -> (r: Vec<SessionInfo>)
    ensures
        reports(r@) == answered_reports(
            match answer {
                Some(text) => Some(text@),
                None => None,
            },
        ),
{
    let none: Vec<SessionInfo> = Vec::new();
    proof {
        assert(reports(none@) =~= Seq::<SessionReport>::empty());
    }
    match answer {
        Some(text) => match parse(text) {
            Some(envelope) => session_list(&envelope),
            None => none,
        },
        None => none,
    }
}

/// The content of a list of texts.
pub open spec fn texts_of(list: Seq<String>) -> Seq<Seq<char>> {
    Seq::new(list.len(), |i: int| list[i]@)
}

/// The sessions of a list of reports.
pub open spec fn report_ids(list: Seq<SessionReport>) -> Seq<Seq<char>> {
    Seq::new(list.len(), |i: int| list[i].id)
}

/// The sessions to subscribe to.
pub fn list_session_ids(infos: &Vec<SessionInfo>) -> (r: Vec<String>)
    ensures
        texts_of(r@) == report_ids(reports(infos@)),
{
    let mut ids: Vec<String> = Vec::new();
    let mut i: usize = 0;
    while i < infos.len()
        invariant
            i == ids.len(),
            i <= infos.len(),
            forall|k: int| 0 <= k < i ==> #[trigger] ids[k]@ == infos[k].id@,
        decreases infos.len() - i,
    {
        ids.push(infos[i].id.clone());
        i = i + 1;
    }
    proof {
        assert(texts_of(ids@) =~= report_ids(reports(infos@)));
    }
    ids
}

/// A token is the text of its file between white space: nothing but white space stands
/// around it, it neither begins nor ends with any, and there is none exactly if the text
/// is nothing but white space.
pub proof fn law_token(text: Seq<char>)
    ensures
        token_in(text) is None <==> (forall|k: int|
            0 <= k < text.len() ==> is_white_space(#[trigger] text[k])),
        token_in(text) matches Some(token) ==> token.len() > 0 && !is_white_space(token[0])
            && !is_white_space(token.last()) && exists|i: int, j: int|
            0 <= i <= j <= text.len() && #[trigger] text.subrange(i, j) == token && (forall|k: int|
                0 <= k < i || j <= k < text.len() ==> is_white_space(#[trigger] text[k])),
{
    law_trimmed(text);
    let t = trimmed(text);
    let (i, j) = choose|i: int, j: int|
        0 <= i <= j <= text.len() && #[trigger] text.subrange(i, j) == t && (forall|k: int|
            0 <= k < i || j <= k < text.len() ==> is_white_space(#[trigger] text[k]));
    if t.len() > 0 {
        assert(t[0] == text[i]);
        assert(!is_white_space(text[i]));
    } else {
        assert(i == j);
    }
}

/// An instance reports the number under `port`, exactly if it is an unsigned integer that
/// fits a port number.
pub proof fn law_reported_port(instance: JsonTree, n: u64)
    ensures
        instance.field("port"@) == Some(JsonTree::Unsigned(n)) && n <= 65535 ==> reported_port(
            instance,
        ) == Some(n as u16),
        instance.field("port"@) == Some(JsonTree::Unsigned(n)) && n > 65535 ==> reported_port(
            instance,
        ) is None,
        !(instance.field("port"@) matches Some(JsonTree::Unsigned(_))) ==> reported_port(instance)
            is None,
{
}

/// A file counts exactly if its name ends in `.json`, its text is JSON and that reports a
/// port; then it gives this port.
pub proof fn law_one_instance_file(file: (String, String), port: u16)
    ensures
        ports_in_files(seq![file]) == seq![port] <==> (exists|before: Seq<char>|
            file.0@ == #[trigger] (before + ".json"@)) && (json_parsed(file.1@) matches Some(
            instance,
        ) && reported_port(instance) == Some(port)),
        ports_in_files(seq![file]).len() <= 1,
{
    let files = seq![file];
    assert(files.drop_last() =~= Seq::empty());
    assert(ports_in_files(files.drop_last()) =~= Seq::empty());
    assert(files.last() == file);
    law_endings(Seq::empty(), file.0@, ".json"@);
    if exists|before: Seq<char>| file.0@ == #[trigger] (before + ".json"@) {
        let before = choose|before: Seq<char>| file.0@ == #[trigger] (before + ".json"@);
        law_endings(before, file.0@, ".json"@);
    }
    match port_in_file(file) {
        Some(p) => {
            assert(ports_in_files(files) =~= seq![p]);
            assert(seq![p][0] == p && seq![port][0] == port);
        },
        None => {
            assert(ports_in_files(files).len() == 0);
        },
    }
}

/// The ports of two lists of files are those of the first and then those of the second.
pub proof fn law_instance_files_in_parts(
    first: Seq<(String, String)>,
    second: Seq<(String, String)>,
)
    ensures
        ports_in_files(first + second) == ports_in_files(first) + ports_in_files(second),
    decreases second.len(),
{
    if second.len() == 0 {
        assert(first + second =~= first);
        assert(ports_in_files(second) =~= Seq::empty());
        assert(ports_in_files(first) + ports_in_files(second) =~= ports_in_files(first));
    } else {
        law_instance_files_in_parts(first, second.drop_last());
        assert((first + second).drop_last() =~= first + second.drop_last());
        assert((first + second).last() == second.last());
        assert(ports_in_files(first + second) =~= ports_in_files(first) + ports_in_files(second));
    }
}

/// The default ports are a hundred, from 58627 on.
pub proof fn law_default_ports(reported: Seq<u16>, i: int)
    requires
        0 <= i < 100,
    ensures
        probe_order(reported).len() == reported.len() + 100,
        probe_order(reported)[reported.len() + i] == 58627 + i,
{
}

/// The next probe is of the port behind those that failed, as long as one is left.
pub proof fn law_next_probe(order: Seq<u16>, failed: nat)
    ensures
        failed < order.len() ==> next_candidate(order, failed) == Some(order[failed as int]),
        failed >= order.len() ==> next_candidate(order, failed) is None,
{
}

/// An address is of this machine: the scheme, the local host and the port's number in
/// front, and the path behind, with nothing between.
pub proof fn law_address(scheme: Seq<char>, port: u16, path: Seq<char>)
    ensures
        ({
            let a = address(scheme, port, path);
            let front = scheme + "://127.0.0.1:"@;
            let from = front.len() as int;
            let to = a.len() - path.len();
            &&& from < to
            &&& a.take(from) == front
            &&& a.skip(to) == path
            &&& denoted(a.subrange(from, to)) == port
            &&& a.subrange(from, to) == decimal_digits(port as nat)
        }),
{
    let a = address(scheme, port, path);
    let front = scheme + "://127.0.0.1:"@;
    let digits = decimal_digits(port as nat);
    law_decimal(port as nat, 0);
    assert(a.take(front.len() as int) =~= front);
    assert(a.skip(a.len() - path.len()) =~= path);
    assert(a.subrange(front.len() as int, a.len() - path.len()) =~= digits);
}

/// The address of the web interface ends in the token, and what stands before it does not
/// depend on the token.
pub proof fn law_web_address(token: Seq<char>, other: Seq<char>, port: u16)
    ensures
        ({
            let a = web_address(token, port);
            let b = web_address(other, port);
            let n = a.len() - token.len();
            &&& n > 0 && a.skip(n) == token
            &&& a.take(n) == b.take(b.len() - other.len())
            &&& a.take(n) == address("http"@, port, "/#token="@)
        }),
{
    let front = address("http"@, port, "/#token="@);
    let a = web_address(token, port);
    let b = web_address(other, port);
    law_address("http"@, port, "/#token="@);
    assert(a.skip(a.len() - token.len()) =~= token);
    assert(a.take(a.len() - token.len()) =~= front);
    assert(b.take(b.len() - other.len()) =~= front);
}

/// The entries of a list of sessions are the list under `items` in `data`; where that is
/// no list, `data` itself, if it is one; and otherwise there are none.
pub proof fn law_session_entries(envelope: JsonTree, data: JsonTree, list: Seq<JsonTree>)
    ensures
        envelope.field("data"@) == Some(data) && data.field("items"@) == Some(
            JsonTree::Array(list),
        ) ==> session_entries(envelope) == Some(list),
        envelope.field("data"@) == Some(JsonTree::Array(list)) ==> session_entries(envelope)
            == Some(list),
        envelope.field("data"@) == Some(data) && !(data is Array) && !(data.field("items"@) matches
            Some(JsonTree::Array(_))) ==> session_entries(envelope) is None,
        envelope.field("data"@) is None ==> session_entries(envelope) is None,
{
}

/// An entry is a report exactly if it names its session in text, and is then a report of
/// that session.
pub proof fn law_entry_names(entry: JsonTree, id: Seq<char>)
    ensures
        entry.field("id"@) == Some(JsonTree::Text(id)) ==> (entry_report(entry) matches Some(
            report,
        ) && report.id == id),
        !(entry.field("id"@) matches Some(JsonTree::Text(_))) ==> entry_report(entry) is None,
{
}

/// The busy flag of a report is the entry's member `busy`: set exactly if that is true. It
/// depends on nothing else, so two entries with the same member give the same flag.
pub proof fn law_entry_busy(a: JsonTree, b: JsonTree)
    requires
        entry_report(a) is Some,
        entry_report(b) is Some,
    ensures
        entry_report(a)->0.busy <==> a.field("busy"@) == Some(JsonTree::Bool(true)),
        a.field("busy"@) == b.field("busy"@) ==> entry_report(a)->0.busy == entry_report(b)->0.busy,
{
}

/// The pending interaction of a report is the text under `pending_interaction`, and none
/// where there is no text. It depends on nothing else.
pub proof fn law_entry_pending(a: JsonTree, b: JsonTree, text: Seq<char>)
    requires
        entry_report(a) is Some,
        entry_report(b) is Some,
    ensures
        a.field("pending_interaction"@) == Some(JsonTree::Text(text)) ==> entry_report(
            a,
        )->0.pending == text,
        !(a.field("pending_interaction"@) matches Some(JsonTree::Text(_))) ==> entry_report(
            a,
        )->0.pending == "none"@,
        a.field("pending_interaction"@) == b.field("pending_interaction"@) ==> entry_report(
            a,
        )->0.pending == entry_report(b)->0.pending,
{
}

/// Entries are read one by one: two lists of entries give the reports of the first and
/// then those of the second; one entry gives its report or nothing.
pub proof fn law_entries_in_parts(
    first: Seq<JsonTree>,
    second: Seq<JsonTree>,
    entry: JsonTree,
)
    ensures
        entry_reports(first + second) == entry_reports(first) + entry_reports(second),
        entry_report(entry) is None ==> entry_reports(seq![entry]).len() == 0,
        entry_report(entry) matches Some(report) ==> entry_reports(seq![entry]) == seq![report],
    decreases second.len(),
{
    let one = seq![entry];
    assert(one.drop_last() =~= Seq::empty());
    assert(entry_reports(one.drop_last()) =~= Seq::empty());
    assert(one.last() == entry);
    if entry_report(entry) is Some {
        assert(entry_reports(one) =~= seq![entry_report(entry)->0]);
    }
    if second.len() == 0 {
        assert(first + second =~= first);
        assert(entry_reports(second) =~= Seq::empty());
        assert(entry_reports(first) + entry_reports(second) =~= entry_reports(first));
    } else {
        law_entries_in_parts(first, second.drop_last(), entry);
        assert((first + second).drop_last() =~= first + second.drop_last());
        assert((first + second).last() == second.last());
        assert(entry_reports(first + second) =~= entry_reports(first) + entry_reports(second));
    }
}

/// An answer gives the reports of its entries; one that is missing, is no JSON or has no
/// entries gives none.
pub proof fn law_answers(text: Seq<char>, envelope: JsonTree)
    ensures
        json_parsed(text) == Some(envelope) && session_entries(envelope) is Some
            ==> answered_reports(Some(text)) == entry_reports(session_entries(envelope)->0),
        json_parsed(text) == Some(envelope) && session_entries(envelope) is None
            ==> answered_reports(Some(text)).len() == 0,
        json_parsed(text) is None ==> answered_reports(Some(text)).len() == 0,
        answered_reports(None).len() == 0,
{
}

/// The sessions of a list of reports are the reports' own, each in its place.
pub proof fn law_report_ids(list: Seq<SessionReport>, i: int)
    ensures
        report_ids(list).len() == list.len(),
        0 <= i < list.len() ==> report_ids(list)[i] == list[i].id,
{
}

/// Lists of texts and of reports are taken element by element.
pub proof fn law_lists_by_content(texts: Seq<String>, infos: Seq<SessionInfo>, i: int)
    ensures
        texts_of(texts).len() == texts.len(),
        0 <= i < texts.len() ==> texts_of(texts)[i] == texts[i]@,
        reports(infos).len() == infos.len(),
        0 <= i < infos.len() ==> reports(infos)[i].id == infos[i].id@ && reports(infos)[i].busy
            == infos[i].busy && reports(infos)[i].pending == infos[i].pending@,
{
}

} // verus!
