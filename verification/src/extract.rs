//! The record extractor: pulls the required fields out of each `host`
//! element and its `port` children, validates them, and yields one record
//! per open port. Any missing or malformed required field aborts the whole
//! extraction with an error naming what was wrong.

use vstd::prelude::*;
use crate::num::spec_parse_u16;
use crate::num::spec_parse_u64;
use crate::num::parse_u16;
use crate::num::parse_u64;
use crate::xml::NodeV;
use crate::xml::XmlNode;
use crate::xml::attr_of;
use crate::xml::attr_of_node;
use crate::xml::collect_hosts;
use crate::xml::collect_names;
use crate::xml::find_desc;
use crate::xml::find_desc_node;
use crate::xml::has_tag;
use crate::xml::hosts_in;
use crate::xml::lemma_find_desc_matches;
use crate::xml::node_has_tag;
use crate::xml::opt_view;
use crate::xml::parse_document;
use crate::xml::str_eq;
use crate::xml::views_of_refs;
use crate::xml::xml_doc;

verus! {

/// The scan's timing window, copied into every record of the same host.
#[derive(Debug)]
pub struct TimeFrame {
    pub start: u64,
    pub end: u64,
}

/// One row of output: one open port observed on one host.
#[derive(Debug)]
pub struct ScanRecord {
    pub hostnames: Vec<String>,
    pub ip: String,
    pub proto: String,
    pub service: String,
    pub port: u16,
    pub timeframe: TimeFrame,
}

/// Spec-level mirror of `ScanRecord`.
#[verifier::ext_equal]
pub ghost struct RecordV {
    pub hostnames: Seq<Seq<char>>,
    pub ip: Seq<char>,
    pub proto: Seq<char>,
    pub service: Seq<char>,
    pub port: u16,
    pub start: u64,
    pub end: u64,
}

impl View for ScanRecord {
    type V = RecordV;

    open spec fn view(&self) -> RecordV {
        RecordV {
            hostnames: self.hostnames@.map_values(|s: String| s@),
            ip: self.ip@,
            proto: self.proto@,
            service: self.service@,
            port: self.port,
            start: self.timeframe.start,
            end: self.timeframe.end,
        }
    }
}

/// Why a run was aborted: a required element was absent, a required
/// attribute failed to parse, or the document was not well-formed markup.
#[derive(Debug)]
pub enum ScanError {
    MissingStartTime,
    BadStartTime,
    MissingEndTime,
    BadEndTime,
    MissingHostnames,
    EmptyHostnames,
    MissingAddress,
    MissingPorts,
    MissingPortId,
    BadPortId,
    MissingState(u16),
    MissingProtocol(u16),
    Syntax(String),
}

impl ScanError {
    /// The error names an absent required element.
    pub open spec fn is_structural(self) -> bool {
        self is MissingStartTime || self is MissingEndTime || self is MissingHostnames
            || self is EmptyHostnames || self is MissingAddress || self is MissingPorts
            || self is MissingPortId || self is MissingState || self is MissingProtocol
    }

    /// The error names an attribute that would not parse as a number.
    pub open spec fn is_format(self) -> bool {
        self is BadStartTime || self is BadEndTime || self is BadPortId
    }
}

/// Collapse runs of equal adjacent entries, keeping the first of each run.
pub open spec fn dedup_adj(s: Seq<Seq<char>>) -> Seq<Seq<char>>
    decreases s.len(),
{
    if s.len() <= 1 {
        s
    } else if s.last() == s[s.len() - 2] {
        dedup_adj(s.drop_last())
    } else {
        dedup_adj(s.drop_last()) + seq![s.last()]
    }
}

/// The collapse keeps the last entry.
pub proof fn lemma_dedup_adj_last(s: Seq<Seq<char>>)
    requires
        s.len() > 0,
    ensures
        dedup_adj(s).len() > 0,
        dedup_adj(s).last() == s.last(),
    decreases s.len(),
{
    if s.len() > 1 {
        lemma_dedup_adj_last(s.drop_last());
    }
}

/// After the collapse no two neighbours are equal.
pub proof fn lemma_dedup_adj_no_adjacent(s: Seq<Seq<char>>)
    ensures
        forall|i: int|
            0 <= i < dedup_adj(s).len() - 1 ==> #[trigger] dedup_adj(s)[i] != dedup_adj(s)[i + 1],
    decreases s.len(),
{
    if s.len() > 1 {
        lemma_dedup_adj_no_adjacent(s.drop_last());
        if s.last() != s[s.len() - 2] {
            lemma_dedup_adj_last(s.drop_last());
            assert(s.drop_last().last() == s[s.len() - 2]);
            let d = dedup_adj(s.drop_last());
            assert(forall|i: int|
                0 <= i < dedup_adj(s).len() - 1 ==> #[trigger] dedup_adj(s)[i] != dedup_adj(s)[i + 1]) by {
                assert(dedup_adj(s) == d + seq![s.last()]);
                assert(forall|i: int| 0 <= i < d.len() ==> dedup_adj(s)[i] == d[i]);
                assert(d.len() > 0 ==> dedup_adj(s)[d.len() - 1] != dedup_adj(s)[d.len() as int]);
            }
        }
    }
}

/// Collapse runs of equal adjacent hostname entries.
pub fn dedup_adjacent(v: &Vec<String>) -> (r: Vec<String>)
    ensures
        r@.map_values(|s: String| s@) == dedup_adj(v@.map_values(|s: String| s@)),
{
    let ghost all = v@.map_values(|s: String| s@);
    let mut out: Vec<String> = Vec::new();
    let mut i: usize = 0;
    while i < v.len()
        invariant
            0 <= i <= v.len(),
            all == v@.map_values(|s: String| s@),
            all.len() == v@.len(),
            out@.map_values(|s: String| s@) == dedup_adj(all.take(i as int)),
        decreases v.len() - i,
    {
        let keep = i == 0 || !str_eq(v[i].as_str(), v[i - 1].as_str());
        proof {
            let t1 = all.take(i + 1);
            assert(t1.drop_last() =~= all.take(i as int));
            assert(t1.last() == v@[i as int]@);
            if i > 0 {
                assert(t1[i - 1] == v@[i - 1]@);
            }
        }
        if keep {
            out.push(v[i].clone());
            proof {
                assert(out@.map_values(|s: String| s@) =~= dedup_adj(all.take(i as int)) + seq![
                    v@[i as int]@,
                ]);
                if i > 0 {
                    assert(dedup_adj(all.take(i + 1)) == dedup_adj(all.take(i as int)) + seq![
                        v@[i as int]@,
                    ]);
                }
            }
        }
        i += 1;
    }
    proof {
        assert(all.take(v@.len() as int) =~= all);
    }
    out
}

/// The host's timing window: both attributes required, both numeric.
pub open spec fn host_times(h: NodeV) -> Result<(u64, u64), ScanError> {
    match attr_of(h, "starttime"@) {
        None => Err(ScanError::MissingStartTime),
        Some(sv) => match spec_parse_u64(sv) {
            None => Err(ScanError::BadStartTime),
            Some(st) => match attr_of(h, "endtime"@) {
                None => Err(ScanError::MissingEndTime),
                Some(ev) => match spec_parse_u64(ev) {
                    None => Err(ScanError::BadEndTime),
                    Some(et) => Ok((st, et)),
                },
            },
        },
    }
}

/// The host's names: every `name` attribute under its `hostnames` element,
/// adjacent duplicates collapsed; the element and a non-empty list required.
pub open spec fn host_hostnames(h: NodeV) -> Result<Seq<Seq<char>>, ScanError> {
    match find_desc(h, "hostnames"@, None) {
        None => Err(ScanError::MissingHostnames),
        Some(hn) => {
            let names = dedup_adj(crate::xml::names_in(hn));
            if names.len() == 0 {
                Err(ScanError::EmptyHostnames)
            } else {
                Ok(names)
            }
        },
    }
}

/// The host's network address: the first `address` element carrying `addr`.
pub open spec fn host_address(h: NodeV) -> Result<Seq<char>, ScanError> {
    match find_desc(h, "address"@, Some("addr"@)) {
        None => Err(ScanError::MissingAddress),
        Some(a) => Ok(attr_of(a, "addr"@)->0),
    }
}

/// What one `port` element yields: an error, a record for an open port, or
/// nothing for a port in any other state.
pub open spec fn port_record(
    p: NodeV,
    hostnames: Seq<Seq<char>>,
    ip: Seq<char>,
    start: u64,
    end: u64,
) -> Result<Option<RecordV>, ScanError> {
    match attr_of(p, "portid"@) {
        None => Err(ScanError::MissingPortId),
        Some(pid) => match spec_parse_u16(pid) {
            None => Err(ScanError::BadPortId),
            Some(port) => match find_desc(p, "state"@, Some("state"@)) {
                None => Err(ScanError::MissingState(port)),
                Some(st) => if attr_of(st, "state"@)->0 != "open"@ {
                    Ok(None)
                } else {
                    match attr_of(p, "protocol"@) {
                        None => Err(ScanError::MissingProtocol(port)),
                        Some(proto) => {
                            let service = match find_desc(p, "service"@, None) {
                                Some(sv) => match attr_of(sv, "name"@) {
                                    Some(nm) => nm,
                                    None => "<no service name>"@,
                                },
                                None => "<no service info>"@,
                            };
                            Ok(
                                Some(
                                    RecordV { hostnames, ip, proto, service, port, start, end },
                                ),
                            )
                        },
                    }
                },
            },
        },
    }
}

/// Records of the `port` children among `children[i..]`, in order; the
/// first bad port aborts, non-`port` children are passed over.
pub open spec fn ports_records(
    children: Seq<NodeV>,
    i: int,
    hostnames: Seq<Seq<char>>,
    ip: Seq<char>,
    start: u64,
    end: u64,
) -> Result<Seq<RecordV>, ScanError>
    decreases children.len() - i,
{
    if i < 0 || i >= children.len() {
        Ok(Seq::empty())
    } else {
        let rest = ports_records(children, i + 1, hostnames, ip, start, end);
        if has_tag(children[i], "port"@) {
            match port_record(children[i], hostnames, ip, start, end) {
                Err(e) => Err(e),
                Ok(None) => rest,
                Ok(Some(r)) => match rest {
                    Err(e) => Err(e),
                    Ok(rs) => Ok(seq![r] + rs),
                },
            }
        } else {
            rest
        }
    }
}

/// Everything one `host` element yields: host-level fields validated first,
/// then one record per open port, sharing those fields.
pub open spec fn host_records(h: NodeV) -> Result<Seq<RecordV>, ScanError> {
    match host_times(h) {
        Err(e) => Err(e),
        Ok((st, et)) => match host_hostnames(h) {
            Err(e) => Err(e),
            Ok(names) => match host_address(h) {
                Err(e) => Err(e),
                Ok(ip) => match find_desc(h, "ports"@, None) {
                    None => Err(ScanError::MissingPorts),
                    Some(ps) => ports_records(ps.children, 0, names, ip, st, et),
                },
            },
        },
    }
}

/// Records of the hosts `hs[i..]`, in order; the first bad host aborts.
pub open spec fn hosts_records(hs: Seq<NodeV>, i: int) -> Result<Seq<RecordV>, ScanError>
    decreases hs.len() - i,
{
    if i < 0 || i >= hs.len() {
        Ok(Seq::empty())
    } else {
        match host_records(hs[i]) {
            Err(e) => Err(e),
            Ok(rs) => match hosts_records(hs, i + 1) {
                Err(e) => Err(e),
                Ok(rest) => Ok(rs + rest),
            },
        }
    }
}

/// Everything one parsed document yields: each `host` element anywhere in
/// the tree, in document order.
pub open spec fn doc_records(root: NodeV) -> Result<Seq<RecordV>, ScanError> {
    hosts_records(hosts_in(root), 0)
}

/// The views of a sequence of records.
pub open spec fn records_view(v: Seq<ScanRecord>) -> Seq<RecordV> {
    v.map_values(|x: ScanRecord| x@)
}

/// Spec-level value of an extraction result.
pub open spec fn result_view(r: Result<Vec<ScanRecord>, ScanError>) -> Result<
    Seq<RecordV>,
    ScanError,
> {
    match r {
        Ok(v) => Ok(records_view(v@)),
        Err(e) => Err(e),
    }
}

/// Spec-level value of a single port's extraction result.
pub open spec fn port_result_view(r: Result<Option<ScanRecord>, ScanError>) -> Result<
    Option<RecordV>,
    ScanError,
> {
    match r {
        Ok(Some(rec)) => Ok(Some(rec@)),
        Ok(None) => Ok(None),
        Err(e) => Err(e),
    }
}

/// Copy a list of strings.
fn clone_strings(v: &Vec<String>) -> (r: Vec<String>)
    ensures
        r@.map_values(|s: String| s@) == v@.map_values(|s: String| s@),
{
    let mut out: Vec<String> = Vec::new();
    let mut i: usize = 0;
    while i < v.len()
        invariant
            0 <= i <= v.len(),
            out@.map_values(|s: String| s@) == v@.take(i as int).map_values(|s: String| s@),
        decreases v.len() - i,
    {
        let c = v[i].clone();
        let ghost prev = out@;
        out.push(c);
        proof {
            assert(out@.map_values(|s: String| s@) =~= prev.map_values(|s: String| s@).push(
                v@[i as int]@,
            ));
            assert(v@.take(i + 1).map_values(|s: String| s@) =~= v@.take(i as int).map_values(
                |s: String| s@,
            ).push(v@[i as int]@));
        }
        i += 1;
    }
    proof {
        assert(v@.take(v@.len() as int) =~= v@);
    }
    out
}

/// Extract what one `port` element yields for the host whose fields are
/// given.
fn extract_port(
    p: &XmlNode,
    hostnames: &Vec<String>,
    ip: &String,
    start: u64,
    end: u64,
) -> (r: Result<Option<ScanRecord>, ScanError>)
    ensures
        port_result_view(r) == port_record(
            p@,
            hostnames@.map_values(|s: String| s@),
            ip@,
            start,
            end,
        ),
{
    let pid_s = match attr_of_node(p, "portid") {
        None => {
            return Err(ScanError::MissingPortId);
        },
        Some(v) => v,
    };
    let port = match parse_u16(pid_s.as_str()) {
        None => {
            return Err(ScanError::BadPortId);
        },
        Some(x) => x,
    };
    let state_node = match find_desc_node(p, "state", Some("state")) {
        None => {
            return Err(ScanError::MissingState(port));
        },
        Some(x) => x,
    };
    let state_val = match attr_of_node(state_node, "state") {
        Some(v) => v,
        None => {
            proof {
                lemma_find_desc_matches(p@, "state"@, opt_view(Some("state")));
            }
            return Err(ScanError::MissingState(port));
        },
    };
    if !str_eq(state_val.as_str(), "open") {
        return Ok(None);
    }
    let proto = match attr_of_node(p, "protocol") {
        None => {
            return Err(ScanError::MissingProtocol(port));
        },
        Some(v) => v.clone(),
    };
    let service: String = match find_desc_node(p, "service", None) {
        Some(sn) => match attr_of_node(sn, "name") {
            Some(v) => v.clone(),
            None => String::from_str("<no service name>"),
        },
        None => String::from_str("<no service info>"),
    };
    let rec = ScanRecord {
        hostnames: clone_strings(hostnames),
        ip: ip.clone(),
        proto,
        service,
        port,
        timeframe: TimeFrame { start, end },
    };
    proof {
        assert(rec@ =~= port_record(
            p@,
            hostnames@.map_values(|s: String| s@),
            ip@,
            start,
            end,
        )->Ok_0->0);
    }
    Ok(Some(rec))
}

/// Extract every record one `host` element yields.
pub fn extract_host(h: &XmlNode) -> (r: Result<Vec<ScanRecord>, ScanError>)
    ensures
        result_view(r) == host_records(h@),
{
    let start_s = match attr_of_node(h, "starttime") {
        None => {
            return Err(ScanError::MissingStartTime);
        },
        Some(v) => v,
    };
    let start = match parse_u64(start_s.as_str()) {
        None => {
            return Err(ScanError::BadStartTime);
        },
        Some(x) => x,
    };
    let end_s = match attr_of_node(h, "endtime") {
        None => {
            return Err(ScanError::MissingEndTime);
        },
        Some(v) => v,
    };
    let end = match parse_u64(end_s.as_str()) {
        None => {
            return Err(ScanError::BadEndTime);
        },
        Some(x) => x,
    };
    let hostnames_node = match find_desc_node(h, "hostnames", None) {
        None => {
            return Err(ScanError::MissingHostnames);
        },
        Some(x) => x,
    };
    let mut raw_names: Vec<String> = Vec::new();
    collect_names(hostnames_node, &mut raw_names);
    let hostnames = dedup_adjacent(&raw_names);
    if hostnames.len() == 0 {
        return Err(ScanError::EmptyHostnames);
    }
    let addr_node = match find_desc_node(h, "address", Some("addr")) {
        None => {
            return Err(ScanError::MissingAddress);
        },
        Some(x) => x,
    };
    let ip = match attr_of_node(addr_node, "addr") {
        Some(v) => v.clone(),
        None => {
            proof {
                lemma_find_desc_matches(h@, "address"@, opt_view(Some("addr")));
            }
            return Err(ScanError::MissingAddress);
        },
    };
    let ports_node = match find_desc_node(h, "ports", None) {
        None => {
            return Err(ScanError::MissingPorts);
        },
        Some(x) => x,
    };
    let ghost hv = hostnames@.map_values(|s: String| s@);
    let ghost children = ports_node@.children;
    let mut records: Vec<ScanRecord> = Vec::new();
    let mut i: usize = 0;
    while i < ports_node.children.len()
        invariant
            0 <= i <= ports_node.children.len(),
            children == ports_node@.children,
            children.len() == ports_node.children@.len(),
            forall|j: int|
                0 <= j < ports_node.children@.len() ==> children[j] == ports_node.children@[j]@,
            hv == hostnames@.map_values(|s: String| s@),
            host_records(h@) == ports_records(children, 0, hv, ip@, start, end),
            ports_records(children, i as int, hv, ip@, start, end) is Ok ==> {
                &&& ports_records(children, 0, hv, ip@, start, end) is Ok
                &&& ports_records(children, 0, hv, ip@, start, end)->Ok_0 == records_view(
                    records@,
                ) + ports_records(children, i as int, hv, ip@, start, end)->Ok_0
            },
            ports_records(children, i as int, hv, ip@, start, end) is Err ==> ports_records(
                children,
                0,
                hv,
                ip@,
                start,
                end,
            ) == ports_records(children, i as int, hv, ip@, start, end),
        decreases ports_node.children.len() - i,
    {
        let child = &ports_node.children[i];
        if node_has_tag(child, "port") {
            match extract_port(child, &hostnames, &ip, start, end) {
                Err(e) => {
                    return Err(e);
                },
                Ok(Some(rec)) => {
                    records.push(rec);
                    proof {
                        if ports_records(children, i + 1, hv, ip@, start, end) is Ok {
                            assert(records_view(records@) + ports_records(
                                children,
                                i + 1,
                                hv,
                                ip@,
                                start,
                                end,
                            )->Ok_0 =~= records_view(records@.drop_last()) + (seq![rec@]
                                + ports_records(children, i + 1, hv, ip@, start, end)->Ok_0));
                        }
                    }
                },
                Ok(None) => {},
            }
        }
        i += 1;
    }
    proof {
        assert(ports_records(children, children.len() as int, hv, ip@, start, end) == Ok::<
            Seq<RecordV>,
            ScanError,
        >(Seq::empty()));
        assert(records_view(records@) + Seq::<RecordV>::empty() =~= records_view(records@));
    }
    Ok(records)
}

/// Parse one document's text and extract every record it yields, in
/// document order.
pub fn parse_content(content: &str) -> (r: Result<Vec<ScanRecord>, ScanError>)
    ensures
        xml_doc(content@) is Some ==> result_view(r) == doc_records(xml_doc(content@)->0),
        xml_doc(content@) is None ==> r is Err && r->Err_0 is Syntax,
{
    let root = match parse_document(content) {
        Err(msg) => {
            return Err(ScanError::Syntax(msg));
        },
        Ok(n) => n,
    };
    let mut hosts: Vec<&XmlNode> = Vec::new();
    collect_hosts(&root, &mut hosts);
    proof {
        assert(views_of_refs(hosts@) =~= hosts_in(root@));
    }
    let ghost hv = hosts_in(root@);
    let mut records: Vec<ScanRecord> = Vec::new();
    let mut i: usize = 0;
    while i < hosts.len()
        invariant
            0 <= i <= hosts.len(),
            xml_doc(content@) == Some(root@),
            hv == hosts_in(root@),
            views_of_refs(hosts@) == hv,
            hv.len() == hosts@.len(),
            hosts_records(hv, i as int) is Ok ==> {
                &&& hosts_records(hv, 0) is Ok
                &&& hosts_records(hv, 0)->Ok_0 == records_view(records@) + hosts_records(
                    hv,
                    i as int,
                )->Ok_0
            },
            hosts_records(hv, i as int) is Err ==> hosts_records(hv, 0) == hosts_records(
                hv,
                i as int,
            ),
        decreases hosts.len() - i,
    {
        proof {
            assert(hv[i as int] == hosts@[i as int]@);
        }
        match extract_host(hosts[i]) {
            Err(e) => {
                return Err(e);
            },
            Ok(mut rs) => {
                let ghost rs_snap = rs@;
                records.append(&mut rs);
                proof {
                    if hosts_records(hv, i + 1) is Ok {
                        assert(records_view(records@) =~= records_view(records@.subrange(
                            0,
                            records@.len() - rs_snap.len(),
                        )) + records_view(rs_snap));
                        assert(records_view(records@) + hosts_records(hv, i + 1)->Ok_0
                            =~= records_view(records@.subrange(
                            0,
                            records@.len() - rs_snap.len(),
                        )) + (records_view(rs_snap) + hosts_records(hv, i + 1)->Ok_0));
                    }
                }
            },
        }
        i += 1;
    }
    proof {
        assert(hosts_records(hv, hv.len() as int) == Ok::<Seq<RecordV>, ScanError>(Seq::empty()));
        assert(records_view(records@) + Seq::<RecordV>::empty() =~= records_view(records@));
    }
    Ok(records)
}

} // verus!
