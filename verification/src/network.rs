//! The hosts of the local network, read off the output of a scanner or, where
//! that is not to be had, off the table of resolved addresses.

use vstd::prelude::*;
use crate::text::{
    after_first, chars_of, contains, copy_range, find_from, has_prefix_at, is_plain_line,
    is_whitespace, lemma_find_bound, lemma_lines_of_unlines, lines, remove_all, same_text, seqs,
    split_lines, split_words, starts_with, string_of, trim, trim_matches, trimmed, unlines,
    without, words, CharClass,
};
use crate::tool::{command, ToolCommand, ToolCommandView, ToolOutcome};

verus! {

/// A host found on the network.
#[derive(Debug)]
pub struct NetworkDevice {
    pub ip: String,
    pub mac: String,
    /// The maker of the network interface, `Unknown` where nothing tells it.
    pub vendor: String,
}

/// The text of a host record.
pub struct NetworkDeviceView {
    pub ip: Seq<char>,
    pub mac: Seq<char>,
    pub vendor: Seq<char>,
}

impl View for NetworkDevice {
    type V = NetworkDeviceView;

    open spec fn view(&self) -> NetworkDeviceView {
        NetworkDeviceView { ip: self.ip@, mac: self.mac@, vendor: self.vendor@ }
    }
}

/// The views of a sequence of hosts.
pub open spec fn host_views(v: Seq<NetworkDevice>) -> Seq<NetworkDeviceView> {
    v.map_values(|d: NetworkDevice| d@)
}

/// The vendor of a host whose vendor nothing tells.
pub open spec fn unknown_vendor() -> Seq<char> {
    "Unknown"@
}

/// Whether a word is wrapped in round brackets.
pub open spec fn is_bracketed(word: Seq<char>) -> bool {
    word.len() > 0 && word.first() == '(' && word.last() == ')'
}

/// The first of `tokens` that is wrapped in round brackets.
pub open spec fn first_bracketed(tokens: Seq<Seq<char>>) -> Option<Seq<char>>
    decreases tokens.len(),
{
    if tokens.len() == 0 {
        None
    } else if is_bracketed(tokens[0]) {
        Some(tokens[0])
    } else {
        first_bracketed(tokens.skip(1))
    }
}

/// The word that follows the first `at` among `tokens`.
pub open spec fn word_after_at(tokens: Seq<Seq<char>>) -> Option<Seq<char>>
    decreases tokens.len(),
{
    if tokens.len() == 0 {
        None
    } else if tokens[0] == "at"@ {
        if tokens.len() > 1 {
            Some(tokens[1])
        } else {
            None
        }
    } else {
        word_after_at(tokens.skip(1))
    }
}

/// Whether a line of the address table can describe a host: it holds both
/// round brackets and the letters `at`.
pub open spec fn is_arp_candidate(line: Seq<char>) -> bool {
    contains(line, "("@) && contains(line, ")"@) && contains(line, "at"@)
}

/// The host that a line of the address table describes: such a line has the
/// form `... (<ip>) at <mac> ...`. The address is the first word in round
/// brackets, without them; the hardware address is the word after the first
/// word `at`.
pub open spec fn parse_arp_line(line: Seq<char>) -> Option<NetworkDeviceView> {
    let tokens = words(line);
    if !is_arp_candidate(line) {
        None
    } else {
        match (first_bracketed(tokens), word_after_at(tokens)) {
            (Some(ip), Some(mac)) => Some(
                NetworkDeviceView {
                    ip: trim_matches(ip, CharClass::Paren),
                    mac: mac,
                    vendor: unknown_vendor(),
                },
            ),
            _ => None,
        }
    }
}

/// `parse_arp_line` as a function value.
pub open spec fn host_of_arp_line() -> spec_fn(Seq<char>) -> Option<NetworkDeviceView> {
    |line: Seq<char>| parse_arp_line(line)
}

/// The hosts of an address table, one for each line that describes one, in the
/// order of the lines.
pub open spec fn parse_arp(table: Seq<char>) -> Seq<NetworkDeviceView> {
    lines(table).filter_map(host_of_arp_line())
}

/// The phrase that begins the report on a host in the scanner's output.
pub open spec fn report_header() -> Seq<char> {
    "Nmap scan report for"@
}

/// The marker that stands before the hardware address in the scanner's output.
pub open spec fn mac_marker() -> Seq<char> {
    "MAC Address:"@
}

/// The address that a report header names: its last word, without the round
/// brackets around it.
pub open spec fn report_ip(line: Seq<char>) -> Option<Seq<char>> {
    let tokens = words(line);
    if tokens.len() == 0 {
        None
    } else {
        Some(trim_matches(tokens.last(), CharClass::Paren))
    }
}

/// The record that a line with the marker completes for the host at `ip`. The
/// hardware address is the first word after the marker; the vendor is what is
/// left of the text after the marker when the address is taken out of it,
/// trimmed of white space and of round brackets. No word after the marker, no
/// record.
pub open spec fn mac_record(ip: Seq<char>, line: Seq<char>) -> Option<NetworkDeviceView> {
    let info = trim(after_first(line, mac_marker()));
    let tokens = words(info);
    if tokens.len() == 0 {
        None
    } else {
        Some(
            NetworkDeviceView {
                ip: ip,
                mac: tokens[0],
                vendor: trim_matches(trim(remove_all(info, tokens[0])), CharClass::Paren),
            },
        )
    }
}

/// One step of reading the scanner's output. `pending` is the address of the
/// last report header that no line with the marker has followed yet. The
/// result is the address pending after `line` and the record that `line`
/// completes.
///
/// A report header replaces the pending address. A line with the marker uses
/// it up, whether or not a record comes of it. Any other line changes nothing.
pub open spec fn scan_step(pending: Option<Seq<char>>, line: Seq<char>) -> (
    Option<Seq<char>>,
    Option<NetworkDeviceView>,
) {
    if starts_with(line, report_header()) {
        match report_ip(line) {
            Some(ip) => (Some(ip), None),
            None => (pending, None),
        }
    } else if contains(line, mac_marker()) {
        match pending {
            Some(ip) => (None, mac_record(ip, line)),
            None => (None, None),
        }
    } else {
        (pending, None)
    }
}

/// The records that the lines of a scan yield, read from the first on, with
/// `pending` the address that is pending before the first.
pub open spec fn scan_records(report: Seq<Seq<char>>, pending: Option<Seq<char>>) -> Seq<
    NetworkDeviceView,
>
    decreases report.len(),
{
    if report.len() == 0 {
        Seq::empty()
    } else {
        let (next, record) = scan_step(pending, report[0]);
        let rest = scan_records(report.skip(1), next);
        match record {
            Some(host) => seq![host] + rest,
            None => rest,
        }
    }
}

/// The hosts of a scanner's output.
pub open spec fn parse_nmap(output: Seq<char>) -> Seq<NetworkDeviceView> {
    scan_records(lines(output), None)
}

/// The address that is pending after the lines `report`, with `pending` the
/// one before them.
pub open spec fn pending_after(report: Seq<Seq<char>>, pending: Option<Seq<char>>) -> Option<
    Seq<char>,
>
    decreases report.len(),
{
    if report.len() == 0 {
        pending
    } else {
        pending_after(report.skip(1), scan_step(pending, report[0]).0)
    }
}

/// Whether `line` is a report header.
pub open spec fn is_report_header(line: Seq<char>) -> bool {
    starts_with(line, report_header())
}

/// Whether `line` is read as a line with the marker: it holds the marker and
/// is no report header.
pub open spec fn is_mac_line(line: Seq<char>) -> bool {
    !starts_with(line, report_header()) && contains(line, mac_marker())
}

/// The records of two runs of lines are those of the first, followed by those
/// of the second read with the address that the first left pending.
pub proof fn lemma_scan_records_concat(
    a: Seq<Seq<char>>,
    b: Seq<Seq<char>>,
    pending: Option<Seq<char>>,
)
    ensures
        scan_records(a + b, pending) == scan_records(a, pending) + scan_records(
            b,
            pending_after(a, pending),
        ),
        pending_after(a + b, pending) == pending_after(b, pending_after(a, pending)),
    decreases a.len(),
{
    if a.len() == 0 {
        assert(a + b =~= b);
        assert(scan_records(a, pending) + scan_records(b, pending) =~= scan_records(b, pending));
    } else {
        assert((a + b)[0] == a[0]);
        assert((a + b).skip(1) =~= a.skip(1) + b);
        let next = scan_step(pending, a[0]).0;
        lemma_scan_records_concat(a.skip(1), b, next);
        assert(scan_records(a + b, pending) =~= scan_records(a, pending) + scan_records(
            b,
            pending_after(a, pending),
        ));
    }
}

/// Lines without the marker complete no record.
pub proof fn lemma_no_mac_line_no_record(report: Seq<Seq<char>>, pending: Option<Seq<char>>)
    requires
        forall|i: int| 0 <= i < report.len() ==> !is_mac_line(#[trigger] report[i]),
    ensures
        scan_records(report, pending) == Seq::<NetworkDeviceView>::empty(),
    decreases report.len(),
{
    if report.len() > 0 {
        assert(!is_mac_line(report[0]));
        assert forall|i: int| 0 <= i < report.skip(1).len() implies !is_mac_line(
            #[trigger] report.skip(1)[i],
        ) by {
            assert(report.skip(1)[i] == report[i + 1]);
        }
        lemma_no_mac_line_no_record(report.skip(1), scan_step(pending, report[0]).0);
    }
}

/// A report header completes no record and leaves the address that it names
/// pending, whatever was pending before.
pub proof fn lemma_header_replaces_pending(line: Seq<char>, pending: Option<Seq<char>>)
    requires
        is_report_header(line),
    ensures
        report_ip(line) is Some,
        scan_step(pending, line) == (report_ip(line), None::<NetworkDeviceView>),
{
    reveal_strlit("Nmap scan report for");
    assert(line[0] == line.take(report_header().len() as int)[0]);
    assert(line[0] == 'N');
    assert(!is_whitespace(line[0]));
    assert(words(line).len() > 0);
}

/// One line alone leaves pending what its step leaves, and yields the record
/// that its step yields.
pub proof fn lemma_single_line(line: Seq<char>, pending: Option<Seq<char>>)
    ensures
        pending_after(seq![line], pending) == scan_step(pending, line).0,
        scan_records(seq![line], pending) == match scan_step(pending, line).1 {
            Some(host) => seq![host],
            None => Seq::<NetworkDeviceView>::empty(),
        },
{
    let one = seq![line];
    assert(one[0] == line);
    assert(one.skip(1) =~= Seq::<Seq<char>>::empty());
    let next = scan_step(pending, line).0;
    assert(pending_after(one.skip(1), next) == next);
    assert(scan_records(one.skip(1), next) =~= Seq::<NetworkDeviceView>::empty());
    match scan_step(pending, line).1 {
        Some(host) => {
            assert(seq![host] + Seq::<NetworkDeviceView>::empty() =~= seq![host]);
        },
        None => {},
    }
}

/// The report made of the lines before a header, the header, the lines
/// between it and a second header, the second header and the lines after.
pub open spec fn report_with_header(
    before: Seq<Seq<char>>,
    first: Seq<char>,
    between: Seq<Seq<char>>,
    second: Seq<char>,
    after: Seq<Seq<char>>,
) -> Seq<Seq<char>> {
    before + seq![first] + between + seq![second] + after
}

/// The same report without its first header.
pub open spec fn report_without_header(
    before: Seq<Seq<char>>,
    between: Seq<Seq<char>>,
    second: Seq<char>,
    after: Seq<Seq<char>>,
) -> Seq<Seq<char>> {
    before + between + seq![second] + after
}

/// Among lines, a report header that another one follows before any line with
/// the marker yields no record.
pub proof fn lemma_overwritten_header(
    before: Seq<Seq<char>>,
    first: Seq<char>,
    between: Seq<Seq<char>>,
    second: Seq<char>,
    after: Seq<Seq<char>>,
    pending: Option<Seq<char>>,
)
    requires
        is_report_header(first),
        is_report_header(second),
        forall|i: int| 0 <= i < between.len() ==> !is_mac_line(#[trigger] between[i]),
    ensures
        scan_records(report_with_header(before, first, between, second, after), pending)
            == scan_records(report_without_header(before, between, second, after), pending),
{
    let reached = pending_after(before, pending);
    let with = report_with_header(before, first, between, second, after);
    let without = report_without_header(before, between, second, after);
    assert(with =~= before + (seq![first] + (between + (seq![second] + after))));
    assert(without =~= before + (between + (seq![second] + after)));
    let tail = seq![second] + after;
    lemma_scan_records_concat(before, seq![first] + (between + tail), pending);
    lemma_scan_records_concat(before, between + tail, pending);
    lemma_scan_records_concat(seq![first], between + tail, reached);
    lemma_header_replaces_pending(first, reached);
    lemma_single_line(first, reached);
    let named = pending_after(seq![first], reached);
    assert(named == report_ip(first));
    assert(scan_records(seq![first], reached) =~= Seq::<NetworkDeviceView>::empty());
    lemma_scan_records_concat(between, tail, named);
    lemma_scan_records_concat(between, tail, reached);
    lemma_no_mac_line_no_record(between, named);
    lemma_no_mac_line_no_record(between, reached);
    let with_first = pending_after(between, named);
    let without_first = pending_after(between, reached);
    lemma_header_replaces_pending(second, with_first);
    lemma_header_replaces_pending(second, without_first);
    assert(tail[0] == second);
    assert(scan_records(tail, with_first) == scan_records(tail, without_first));
    assert(scan_records(with, pending) =~= scan_records(without, pending));
}

/// Among lines, a report header with no line with the marker after it yields
/// no record, and neither does any line after it.
pub proof fn lemma_last_header(
    before: Seq<Seq<char>>,
    first: Seq<char>,
    rest: Seq<Seq<char>>,
    pending: Option<Seq<char>>,
)
    requires
        is_report_header(first),
        forall|i: int| 0 <= i < rest.len() ==> !is_mac_line(#[trigger] rest[i]),
    ensures
        scan_records(before + seq![first] + rest, pending) == scan_records(before, pending),
{
    let reached = pending_after(before, pending);
    let tail = seq![first] + rest;
    assert(before + seq![first] + rest =~= before + tail);
    assert forall|i: int| 0 <= i < tail.len() implies !is_mac_line(#[trigger] tail[i]) by {
        if i > 0 {
            assert(tail[i] == rest[i - 1]);
        }
    }
    lemma_scan_records_concat(before, tail, pending);
    lemma_no_mac_line_no_record(tail, reached);
    assert(scan_records(before, pending) + Seq::<NetworkDeviceView>::empty() =~= scan_records(
        before,
        pending,
    ));
}

/// Whether each of `report` can be a line of a text as it stands.
pub open spec fn are_plain_lines(report: Seq<Seq<char>>) -> bool {
    forall|i: int| 0 <= i < report.len() ==> is_plain_line(#[trigger] report[i])
}

/// The hosts of a scanner's output made of plain lines are the records of
/// those lines.
pub proof fn lemma_parse_nmap_of_lines(report: Seq<Seq<char>>)
    requires
        are_plain_lines(report),
    ensures
        parse_nmap(unlines(report)) == scan_records(report, None),
{
    lemma_lines_of_unlines(report);
}

/// A report header that another one follows before any line with the marker
/// yields no record for its address: the hosts of the output are those of the
/// output without that header.
pub proof fn law_header_without_mac_line_yields_nothing(
    before: Seq<Seq<char>>,
    first: Seq<char>,
    between: Seq<Seq<char>>,
    second: Seq<char>,
    after: Seq<Seq<char>>,
)
    requires
        are_plain_lines(report_with_header(before, first, between, second, after)),
        are_plain_lines(report_without_header(before, between, second, after)),
        is_report_header(first),
        is_report_header(second),
        forall|i: int| 0 <= i < between.len() ==> !is_mac_line(#[trigger] between[i]),
    ensures
        parse_nmap(unlines(report_with_header(before, first, between, second, after)))
            == parse_nmap(unlines(report_without_header(before, between, second, after))),
{
    lemma_parse_nmap_of_lines(report_with_header(before, first, between, second, after));
    lemma_parse_nmap_of_lines(report_without_header(before, between, second, after));
    lemma_overwritten_header(before, first, between, second, after, None);
}

/// A report header with no line with the marker after it yields no record for
/// its address: the hosts of the output are those of the lines before it.
pub proof fn law_last_header_yields_nothing(
    before: Seq<Seq<char>>,
    first: Seq<char>,
    rest: Seq<Seq<char>>,
)
    requires
        are_plain_lines(before + seq![first] + rest),
        are_plain_lines(before),
        is_report_header(first),
        forall|i: int| 0 <= i < rest.len() ==> !is_mac_line(#[trigger] rest[i]),
    ensures
        parse_nmap(unlines(before + seq![first] + rest)) == parse_nmap(unlines(before)),
{
    lemma_parse_nmap_of_lines(before + seq![first] + rest);
    lemma_parse_nmap_of_lines(before);
    lemma_last_header(before, first, rest, None);
}

/// The text of a scan's result.
pub open spec fn scan_view(r: Result<Vec<NetworkDevice>, String>) -> Result<
    Seq<NetworkDeviceView>,
    Seq<char>,
> {
    match r {
        Ok(hosts) => Ok(host_views(hosts@)),
        Err(message) => Err(message@),
    }
}

/// Finds the first word in round brackets.
fn find_bracketed(tokens: &Vec<Vec<char>>) -> (r: Option<usize>)
    ensures
        match r {
            Some(i) => i < tokens.len() && first_bracketed(seqs(tokens@)) == Some(tokens@[i as int]@),
            None => first_bracketed(seqs(tokens@)) is None,
        },
{
    let mut i: usize = 0;
    assert(seqs(tokens@).skip(0) =~= seqs(tokens@));
    while i < tokens.len()
        invariant
            i <= tokens.len(),
            first_bracketed(seqs(tokens@)) == first_bracketed(seqs(tokens@).skip(i as int)),
        decreases tokens.len() - i,
    {
        let token = tokens[i].as_slice();
        assert(seqs(tokens@).skip(i as int)[0] == token@);
        if token.len() > 0 && token[0] == '(' && token[token.len() - 1] == ')' {
            return Some(i);
        }
        assert(seqs(tokens@).skip(i as int).skip(1) =~= seqs(tokens@).skip(i + 1));
        i += 1;
    }
    None
}

/// Finds the word that follows the first `at`.
fn find_after_at(tokens: &Vec<Vec<char>>) -> (r: Option<usize>)
    ensures
        match r {
            Some(i) => i < tokens.len() && word_after_at(seqs(tokens@)) == Some(tokens@[i as int]@),
            None => word_after_at(seqs(tokens@)) is None,
        },
{
    let at = chars_of("at");
    let mut i: usize = 0;
    assert(seqs(tokens@).skip(0) =~= seqs(tokens@));
    while i < tokens.len()
        invariant
            i <= tokens.len(),
            at@ == "at"@,
            word_after_at(seqs(tokens@)) == word_after_at(seqs(tokens@).skip(i as int)),
        decreases tokens.len() - i,
    {
        let ghost rest = seqs(tokens@).skip(i as int);
        assert(rest[0] == tokens@[i as int]@);
        if same_text(tokens[i].as_slice(), at.as_slice()) {
            if i + 1 < tokens.len() {
                assert(rest[1] == tokens@[i + 1]@);
                return Some(i + 1);
            } else {
                return None;
            }
        }
        assert(rest.skip(1) =~= seqs(tokens@).skip(i + 1));
        i += 1;
    }
    None
}

/// Tests whether `pat` occurs in `line`.
fn holds(line: &[char], pat: &str) -> (r: bool)
    ensures
        r == contains(line@, pat@),
{
    let pat = chars_of(pat);
    assert(line@.skip(0) =~= line@);
    find_from(line, 0, pat.as_slice()).is_some()
}

/// Reads one line of the address table.
pub fn host_from_arp_line(line: &[char]) -> (host: Option<NetworkDevice>)
    ensures
        match host {
            Some(h) => parse_arp_line(line@) == Some(h@),
            None => parse_arp_line(line@) is None,
        },
{
    if !(holds(line, "(") && holds(line, ")") && holds(line, "at")) {
        return None;
    }
    let tokens = split_words(line);
    match (find_bracketed(&tokens), find_after_at(&tokens)) {
        (Some(i), Some(j)) => {
            let ip = trimmed(tokens[i].as_slice(), CharClass::Paren);
            Some(
                NetworkDevice {
                    ip: string_of(ip.as_slice()),
                    mac: string_of(tokens[j].as_slice()),
                    vendor: "Unknown".to_string(),
                },
            )
        },
        _ => None,
    }
}

/// Parses the table of resolved addresses.
pub fn parse_arp_output(table: &str) -> (hosts: Vec<NetworkDevice>)
    ensures
        host_views(hosts@) == parse_arp(table@),
{
    let chars = chars_of(table);
    let all = split_lines(chars.as_slice());
    let mut hosts: Vec<NetworkDevice> = Vec::new();
    let ghost body = lines(table@);
    let mut i: usize = 0;
    assert(body.take(0).filter_map(host_of_arp_line()) =~= Seq::<NetworkDeviceView>::empty());
    assert(host_views(hosts@) =~= Seq::<NetworkDeviceView>::empty());
    while i < all.len()
        invariant
            i <= all.len(),
            seqs(all@) == body,
            host_views(hosts@) == body.take(i as int).filter_map(host_of_arp_line()),
        decreases all.len() - i,
    {
        let ghost before = host_views(hosts@);
        proof {
            body.lemma_filter_map_take_succ(host_of_arp_line(), i as int);
        }
        assert(body[i as int] == all@[i as int]@);
        match host_from_arp_line(all[i].as_slice()) {
            Some(host) => {
                hosts.push(host);
                assert(host_views(hosts@) =~= before.push(host@));
            },
            None => {},
        }
        i += 1;
    }
    assert(body.take(i as int) =~= body);
    hosts
}

/// Reads the address off a report header.
fn ip_of_report(line: &[char]) -> (ip: Option<Vec<char>>)
    ensures
        match ip {
            Some(v) => report_ip(line@) == Some(v@),
            None => report_ip(line@) is None,
        },
{
    let tokens = split_words(line);
    if tokens.len() == 0 {
        return None;
    }
    assert(seqs(tokens@).last() == tokens@[tokens.len() - 1]@);
    Some(trimmed(tokens[tokens.len() - 1].as_slice(), CharClass::Paren))
}

/// Completes the record of the host at `ip` from a line with the marker at
/// index `at`.
fn host_from_mac_line(ip: &[char], line: &[char], marker: &[char], at: usize) -> (host: Option<
    NetworkDevice,
>)
    requires
        marker@ == mac_marker(),
        at <= line.len(),
        crate::text::find(line@, marker@) == Some(at as int),
    ensures
        match host {
            Some(h) => mac_record(ip@, line@) == Some(h@),
            None => mac_record(ip@, line@) is None,
        },
{
    proof {
        lemma_find_bound(line@, marker@);
    }
    let start = at + marker.len();
    let end = match find_from(line, start, marker) {
        Some(next) => next,
        None => line.len(),
    };
    let field = copy_range(line, start, end);
    assert(field@ =~= after_first(line@, mac_marker()));
    let info = trimmed(field.as_slice(), CharClass::Whitespace);
    let tokens = split_words(info.as_slice());
    if tokens.len() == 0 {
        return None;
    }
    let mac = &tokens[0];
    assert(seqs(tokens@)[0] == mac@);
    let left = without(info.as_slice(), mac.as_slice());
    let inner = trimmed(left.as_slice(), CharClass::Whitespace);
    let vendor = trimmed(inner.as_slice(), CharClass::Paren);
    Some(
        NetworkDevice {
            ip: string_of(ip),
            mac: string_of(mac.as_slice()),
            vendor: string_of(vendor.as_slice()),
        },
    )
}

/// Parses the scanner's output.
pub fn parse_nmap_output(output: &str) -> (r: Result<Vec<NetworkDevice>, String>)
    ensures
        scan_view(r) == Ok::<Seq<NetworkDeviceView>, Seq<char>>(parse_nmap(output@)),
{
    let header = chars_of("Nmap scan report for");
    let marker = chars_of("MAC Address:");
    let chars = chars_of(output);
    let all = split_lines(chars.as_slice());
    let mut hosts: Vec<NetworkDevice> = Vec::new();
    let mut pending: Option<Vec<char>> = None;
    let ghost report = lines(output@);
    let mut i: usize = 0;
    assert(report.skip(0) =~= report);
    assert(host_views(hosts@) =~= Seq::<NetworkDeviceView>::empty());
    while i < all.len()
        invariant
            i <= all.len(),
            header@ == report_header(),
            marker@ == mac_marker(),
            seqs(all@) == report,
            host_views(hosts@) + scan_records(
                report.skip(i as int),
                match pending {
                    Some(ip) => Some(ip@),
                    None => None,
                },
            ) == scan_records(report, None),
        decreases all.len() - i,
    {
        let ghost before = host_views(hosts@);
        let ghost rest = report.skip(i as int);
        let line = all[i].as_slice();
        assert(rest[0] == line@);
        assert(rest.skip(1) =~= report.skip(i + 1));
        assert(line@.skip(0) =~= line@);
        if has_prefix_at(line, 0, header.as_slice()) {
            match ip_of_report(line) {
                Some(ip) => {
                    pending = Some(ip);
                },
                None => {},
            }
        } else {
            match find_from(line, 0, marker.as_slice()) {
                Some(at) => {
                    match pending {
                        Some(ip) => {
                            match host_from_mac_line(ip.as_slice(), line, marker.as_slice(), at) {
                                Some(host) => {
                                    hosts.push(host);
                                    assert(host_views(hosts@) =~= before.push(host@));
                                    assert(host_views(hosts@) + scan_records(rest.skip(1), None)
                                        =~= before + (seq![host@] + scan_records(
                                        rest.skip(1),
                                        None,
                                    )));
                                },
                                None => {},
                            }
                            pending = None;
                        },
                        None => {},
                    }
                },
                None => {},
            }
        }
        i += 1;
    }
    Ok(hosts)
}

/// The network that the scanner sweeps.
pub open spec fn scan_target() -> Seq<char> {
    "192.168.1.0/24"@
}

/// The command line of the scanner: a sweep of `scan_target` without a port
/// scan.
pub open spec fn scanner_command() -> ToolCommandView {
    ToolCommandView { program: "nmap"@, args: seq!["-sn"@, scan_target()] }
}

/// The command line that prints the table of resolved addresses.
pub open spec fn table_command() -> ToolCommandView {
    ToolCommandView { program: "arp"@, args: seq!["-a"@] }
}

/// Whether a tool ran and exited with status zero.
pub open spec fn succeeded(outcome: ToolOutcome) -> bool {
    outcome matches Ok(output) && output.success
}

/// What a scan does once the scanner has ended.
#[derive(Debug)]
pub enum ScanStep {
    /// The scan is over, with these hosts.
    Done(Vec<NetworkDevice>),
    /// The scanner was of no use: run this command and read its table.
    Fallback(ToolCommand),
}

/// The command that starts a scan of the network.
pub fn scan_network_command() -> (cmd: ToolCommand)
    ensures
        cmd@ == scanner_command(),
{
    let cmd = command("nmap", &["-sn", "192.168.1.0/24"]);
    assert(cmd@.args =~= seq!["-sn"@, scan_target()]);
    cmd
}

/// Decides how a scan goes on once the scanner has ended. Where it ran and
/// exited with status zero, the scan is over with the hosts of its output,
/// however few. In every other case the table of resolved addresses is asked
/// for.
pub fn scan_network(primary: ToolOutcome) -> (step: ScanStep)
    ensures
        match step {
            ScanStep::Done(hosts) => primary matches Ok(output) && output.success && host_views(
                hosts@,
            ) == parse_nmap(output.stdout@),
            ScanStep::Fallback(cmd) => !succeeded(primary) && cmd@ == table_command(),
        },
{
    match primary {
        Ok(output) => {
            if output.success {
                match parse_nmap_output(output.stdout.as_str()) {
                    Ok(hosts) => {
                        return ScanStep::Done(hosts);
                    },
                    Err(_) => {},
                }
            }
        },
        Err(_) => {},
    }
    let cmd = command("arp", &["-a"]);
    assert(cmd@.args =~= seq!["-a"@]);
    ScanStep::Fallback(cmd)
}

/// What a scan returns once the table of resolved addresses was asked for: the
/// reason where the tool could not be started, and otherwise the hosts of its
/// table, whatever its exit status.
pub open spec fn fallback_answer(outcome: ToolOutcome) -> Result<
    Seq<NetworkDeviceView>,
    Seq<char>,
> {
    match outcome {
        Err(reason) => Err(reason@),
        Ok(output) => Ok(parse_arp(output.stdout@)),
    }
}

/// Ends a scan that fell back on the table of resolved addresses.
pub fn scan_network_fallback(outcome: ToolOutcome) -> (r: Result<Vec<NetworkDevice>, String>)
    ensures
        scan_view(r) == fallback_answer(outcome),
{
    match outcome {
        Err(reason) => Err(reason),
        Ok(output) => Ok(parse_arp_output(output.stdout.as_str())),
    }
}

} // verus!
