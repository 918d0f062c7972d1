//! Laws of the extraction engine, stated and proved over the spec-level
//! model: how many records a run emits, what their hostnames look like, that
//! a serialized row can be read back, that runs are repeatable, and how a
//! port's state or a missing ports section decides a run's fate.

use vstd::prelude::*;
use crate::extract::RecordV;
use crate::extract::ScanError;
use crate::extract::dedup_adj;
use crate::extract::doc_records;
use crate::extract::host_address;
use crate::extract::host_hostnames;
use crate::extract::host_records;
use crate::extract::host_times;
use crate::extract::hosts_records;
use crate::extract::lemma_dedup_adj_no_adjacent;
use crate::extract::port_record;
use crate::extract::ports_records;
use crate::num::all_digits;
use crate::num::dec_str;
use crate::num::is_digit;
use crate::num::lemma_dec_str_digits;
use crate::num::lemma_parse_of_dec_str_u16;
use crate::num::lemma_parse_of_dec_str_u64;
use crate::num::spec_parse_u16;
use crate::num::spec_parse_u64;
use crate::report::contents_records;
use crate::report::csv_row;
use crate::report::join_comma;
use crate::xml::NodeV;
use crate::xml::attr_of;
use crate::xml::find_desc;
use crate::xml::has_tag;
use crate::xml::hosts_in;
use crate::xml::names_in;
use crate::xml::xml_doc;

verus! {

/// The port element is reported open: it carries a `state` descendant whose
/// `state` attribute is exactly `open`.
pub open spec fn is_open_port(p: NodeV) -> bool {
    &&& has_tag(p, "port"@)
    &&& find_desc(p, "state"@, Some("state"@)) is Some
    &&& attr_of(find_desc(p, "state"@, Some("state"@))->0, "state"@)->0 == "open"@
}

/// How many of the children `children[i..]` are open ports.
pub open spec fn open_count(children: Seq<NodeV>, i: int) -> nat
    decreases children.len() - i,
{
    if i < 0 || i >= children.len() {
        0
    } else {
        (if is_open_port(children[i]) {
            1nat
        } else {
            0nat
        }) + open_count(children, i + 1)
    }
}

/// How many open ports the host's ports section holds.
pub open spec fn host_open_count(h: NodeV) -> nat {
    match find_desc(h, "ports"@, None) {
        Some(ps) => open_count(ps.children, 0),
        None => 0,
    }
}

/// How many open ports the hosts `hs[i..]` hold together.
pub open spec fn hosts_open_count(hs: Seq<NodeV>, i: int) -> nat
    decreases hs.len() - i,
{
    if i < 0 || i >= hs.len() {
        0
    } else {
        host_open_count(hs[i]) + hosts_open_count(hs, i + 1)
    }
}

/// How many open ports a whole document holds.
pub open spec fn doc_open_count(root: NodeV) -> nat {
    hosts_open_count(hosts_in(root), 0)
}

/// How many open ports a whole run's documents hold, counting only
/// documents that parse.
pub open spec fn docs_open_count(texts: Seq<Seq<char>>, i: int) -> nat
    decreases texts.len() - i,
{
    if i < 0 || i >= texts.len() {
        0
    } else {
        (match xml_doc(texts[i]) {
            Some(doc) => doc_open_count(doc),
            None => 0nat,
        }) + docs_open_count(texts, i + 1)
    }
}

proof fn lemma_ports_records_count(
    children: Seq<NodeV>,
    i: int,
    hostnames: Seq<Seq<char>>,
    ip: Seq<char>,
    start: u64,
    end: u64,
)
    ensures
        ports_records(children, i, hostnames, ip, start, end) matches Ok(rs) ==> rs.len()
            == open_count(children, i),
    decreases children.len() - i,
{
    if 0 <= i < children.len() {
        lemma_ports_records_count(children, i + 1, hostnames, ip, start, end);
    }
}

proof fn lemma_host_records_count(h: NodeV)
    ensures
        host_records(h) matches Ok(rs) ==> rs.len() == host_open_count(h),
{
    if host_records(h) is Ok {
        let ps = find_desc(h, "ports"@, None)->0;
        let names = host_hostnames(h)->Ok_0;
        let ip = host_address(h)->Ok_0;
        let times = host_times(h)->Ok_0;
        lemma_ports_records_count(ps.children, 0, names, ip, times.0, times.1);
    }
}

proof fn lemma_hosts_records_count(hs: Seq<NodeV>, i: int)
    ensures
        hosts_records(hs, i) matches Ok(rs) ==> rs.len() == hosts_open_count(hs, i),
    decreases hs.len() - i,
{
    if 0 <= i < hs.len() {
        lemma_host_records_count(hs[i]);
        lemma_hosts_records_count(hs, i + 1);
    }
}

/// A successful document yields exactly one record per open port.
pub proof fn lemma_doc_records_count(root: NodeV)
    ensures
        doc_records(root) matches Ok(rs) ==> rs.len() == doc_open_count(root),
{
    lemma_hosts_records_count(hosts_in(root), 0);
}

/// A successful run yields exactly one record per open port across all its
/// documents.
pub proof fn lemma_run_records_count(texts: Seq<Seq<char>>, i: int)
    ensures
        contents_records(texts, i) matches Some(Ok(rs)) ==> rs.len() == docs_open_count(texts, i),
    decreases texts.len() - i,
{
    if 0 <= i < texts.len() {
        if xml_doc(texts[i]) is Some {
            lemma_doc_records_count(xml_doc(texts[i])->0);
        }
        lemma_run_records_count(texts, i + 1);
    }
}

/// The record's hostname list is non-empty and holds no two equal
/// neighbours.
pub open spec fn good_hostnames(r: RecordV) -> bool {
    &&& r.hostnames.len() > 0
    &&& forall|i: int|
        0 <= i < r.hostnames.len() - 1 ==> #[trigger] r.hostnames[i] != r.hostnames[i + 1]
}

proof fn lemma_ports_records_hostnames(
    children: Seq<NodeV>,
    i: int,
    hostnames: Seq<Seq<char>>,
    ip: Seq<char>,
    start: u64,
    end: u64,
)
    requires
        hostnames.len() > 0,
        forall|k: int|
            0 <= k < hostnames.len() - 1 ==> #[trigger] hostnames[k] != hostnames[k + 1],
    ensures
        ports_records(children, i, hostnames, ip, start, end) matches Ok(rs) ==> forall|j: int|
            0 <= j < rs.len() ==> good_hostnames(#[trigger] rs[j]),
    decreases children.len() - i,
{
    if 0 <= i < children.len() {
        lemma_ports_records_hostnames(children, i + 1, hostnames, ip, start, end);
        if ports_records(children, i, hostnames, ip, start, end) is Ok {
            let rs = ports_records(children, i, hostnames, ip, start, end)->Ok_0;
            let rest = ports_records(children, i + 1, hostnames, ip, start, end)->Ok_0;
            let pr = port_record(children[i], hostnames, ip, start, end);
            if has_tag(children[i], "port"@) && pr is Ok && pr->Ok_0 is Some {
                let r = pr->Ok_0->0;
                assert(r.hostnames == hostnames);
                assert(rs == seq![r] + rest);
                assert(forall|j: int| 0 <= j < rest.len() ==> rs[j + 1] == rest[j]);
            }
        }
    }
}

proof fn lemma_host_records_hostnames(h: NodeV)
    ensures
        host_records(h) matches Ok(rs) ==> forall|j: int|
            0 <= j < rs.len() ==> good_hostnames(#[trigger] rs[j]),
{
    if host_records(h) is Ok {
        let hn = find_desc(h, "hostnames"@, None)->0;
        let names = dedup_adj(names_in(hn));
        lemma_dedup_adj_no_adjacent(names_in(hn));
        let ps = find_desc(h, "ports"@, None)->0;
        let ip = host_address(h)->Ok_0;
        let times = host_times(h)->Ok_0;
        lemma_ports_records_hostnames(ps.children, 0, names, ip, times.0, times.1);
    }
}

proof fn lemma_hosts_records_hostnames(hs: Seq<NodeV>, i: int)
    ensures
        hosts_records(hs, i) matches Ok(rs) ==> forall|j: int|
            0 <= j < rs.len() ==> good_hostnames(#[trigger] rs[j]),
    decreases hs.len() - i,
{
    if 0 <= i < hs.len() {
        lemma_host_records_hostnames(hs[i]);
        lemma_hosts_records_hostnames(hs, i + 1);
        if hosts_records(hs, i) is Ok {
            let rs0 = host_records(hs[i])->Ok_0;
            let rest = hosts_records(hs, i + 1)->Ok_0;
            assert(forall|j: int| 0 <= j < rs0.len() ==> (rs0 + rest)[j] == rs0[j]);
            assert(forall|j: int|
                rs0.len() <= j < rs0.len() + rest.len() ==> (rs0 + rest)[j] == rest[
                    j - rs0.len()
                ]);
        }
    }
}

/// Every record a successful document yields has a non-empty hostname list
/// with no two equal neighbours.
pub proof fn lemma_doc_records_hostnames(root: NodeV)
    ensures
        doc_records(root) matches Ok(rs) ==> forall|j: int|
            0 <= j < rs.len() ==> good_hostnames(#[trigger] rs[j]),
{
    lemma_hosts_records_hostnames(hosts_in(root), 0);
}

/// No character of `s` is a comma.
pub open spec fn no_comma(s: Seq<char>) -> bool {
    forall|i: int| 0 <= i < s.len() ==> s[i] != ','
}

/// Index of the first comma at or after position `i`, or the length when
/// there is none.
pub open spec fn first_comma(s: Seq<char>, i: int) -> int
    decreases s.len() - i,
{
    if i < 0 || i >= s.len() {
        s.len() as int
    } else if s[i] == ',' {
        i
    } else {
        first_comma(s, i + 1)
    }
}

/// The fields of `s`, split at every comma.
pub open spec fn split_commas(s: Seq<char>) -> Seq<Seq<char>>
    decreases s.len(),
{
    let k = first_comma(s, 0);
    if 0 <= k < s.len() {
        seq![s.take(k)] + split_commas(s.skip(k + 1))
    } else {
        seq![s]
    }
}

proof fn lemma_first_comma_none(s: Seq<char>, i: int)
    requires
        no_comma(s),
        0 <= i,
    ensures
        first_comma(s, i) == s.len(),
    decreases s.len() - i,
{
    if i < s.len() {
        lemma_first_comma_none(s, i + 1);
    }
}

proof fn lemma_first_comma_concat(a: Seq<char>, b: Seq<char>, i: int)
    requires
        no_comma(a),
        0 <= i <= a.len(),
    ensures
        first_comma(a + seq![','] + b, i) == a.len(),
    decreases a.len() - i,
{
    let s = a + seq![','] + b;
    if i < a.len() {
        assert(s[i] == a[i]);
        lemma_first_comma_concat(a, b, i + 1);
    } else {
        assert(s[i] == ',');
    }
}

/// Splitting a comma-free field, a comma, and a remainder takes off exactly
/// that field.
proof fn lemma_split_concat(a: Seq<char>, b: Seq<char>)
    requires
        no_comma(a),
    ensures
        split_commas(a + seq![','] + b) == seq![a] + split_commas(b),
{
    let s = a + seq![','] + b;
    lemma_first_comma_concat(a, b, 0);
    assert(s.take(a.len() as int) =~= a);
    assert(s.skip(a.len() as int + 1) =~= b);
}

proof fn lemma_split_single(a: Seq<char>)
    requires
        no_comma(a),
    ensures
        split_commas(a) == seq![a],
{
    lemma_first_comma_none(a, 0);
}

/// For two or more entries the join starts with the first entry, a comma,
/// and the join of the rest.
proof fn lemma_join_head(names: Seq<Seq<char>>)
    requires
        names.len() >= 2,
    ensures
        join_comma(names) == names[0] + seq![','] + join_comma(names.drop_first()),
    decreases names.len(),
{
    if names.len() == 2 {
        assert(names.drop_last() =~= seq![names[0]]);
        assert(names.drop_first() =~= seq![names[1]]);
        assert(join_comma(seq![names[0]]) == names[0]);
        assert(join_comma(seq![names[1]]) == names[1]);
    } else {
        lemma_join_head(names.drop_last());
        assert(names.drop_last()[0] == names[0]);
        assert(names.drop_last().drop_first() =~= names.drop_first().drop_last());
        assert(names.drop_first().last() == names.last());
        assert(names.drop_first().len() >= 2);
        assert(join_comma(names) == join_comma(names.drop_last()) + seq![','] + names.last());
        assert(join_comma(names.drop_last()) == names[0] + seq![','] + join_comma(
            names.drop_first().drop_last(),
        ));
        assert(join_comma(names.drop_first()) == join_comma(names.drop_first().drop_last())
            + seq![','] + names.drop_first().last());
        assert(names[0] + seq![','] + (join_comma(names.drop_first().drop_last()) + seq![',']
            + names.last()) =~= (names[0] + seq![','] + join_comma(
            names.drop_first().drop_last(),
        )) + seq![','] + names.last());
    }
}

/// Splitting the comma-join of comma-free entries gives the entries back.
proof fn lemma_join_split(names: Seq<Seq<char>>)
    requires
        names.len() > 0,
        forall|i: int| 0 <= i < names.len() ==> no_comma(#[trigger] names[i]),
    ensures
        split_commas(join_comma(names)) == names,
    decreases names.len(),
{
    if names.len() == 1 {
        lemma_split_single(names[0]);
        assert(seq![names[0]] =~= names);
    } else {
        lemma_join_head(names);
        assert(forall|i: int|
            0 <= i < names.drop_first().len() ==> #[trigger] names.drop_first()[i] == names[
                i + 1
            ]);
        lemma_join_split(names.drop_first());
        lemma_split_concat(names[0], join_comma(names.drop_first()));
        assert(seq![names[0]] + names.drop_first() =~= names);
    }
}

/// A numeral holds no comma.
proof fn lemma_digits_no_comma(s: Seq<char>)
    requires
        all_digits(s),
    ensures
        no_comma(s),
{
    assert(forall|i: int| 0 <= i < s.len() ==> is_digit(s[i]) ==> s[i] != ',');
}

/// Round-trip: splitting a record's serialized row at its commas gives the
/// record's fields back — the numeric ones as numerals that parse to the
/// original values, then address, protocol and service verbatim, and from
/// the seventh field on the hostname list.
#[verifier::rlimit(60)]
pub proof fn lemma_row_round_trip(r: RecordV)
    requires
        no_comma(r.ip),
        no_comma(r.proto),
        no_comma(r.service),
        r.hostnames.len() > 0,
        forall|i: int| 0 <= i < r.hostnames.len() ==> no_comma(#[trigger] r.hostnames[i]),
    ensures
        split_commas(csv_row(r)).len() == 6 + r.hostnames.len(),
        spec_parse_u64(split_commas(csv_row(r))[0]) == Some(r.start),
        spec_parse_u64(split_commas(csv_row(r))[1]) == Some(r.end),
        split_commas(csv_row(r))[2] == r.ip,
        split_commas(csv_row(r))[3] == r.proto,
        spec_parse_u16(split_commas(csv_row(r))[4]) == Some(r.port),
        split_commas(csv_row(r))[5] == r.service,
        split_commas(csv_row(r)).skip(6) == r.hostnames,
{
    let f0 = dec_str(r.start as nat);
    let f1 = dec_str(r.end as nat);
    let f4 = dec_str(r.port as nat);
    lemma_dec_str_digits(r.start as nat);
    lemma_dec_str_digits(r.end as nat);
    lemma_dec_str_digits(r.port as nat);
    lemma_digits_no_comma(f0);
    lemma_digits_no_comma(f1);
    lemma_digits_no_comma(f4);
    lemma_parse_of_dec_str_u64(r.start);
    lemma_parse_of_dec_str_u64(r.end);
    lemma_parse_of_dec_str_u16(r.port);
    let tail5 = r.service + seq![','] + join_comma(r.hostnames);
    let tail4 = f4 + seq![','] + tail5;
    let tail3 = r.proto + seq![','] + tail4;
    let tail2 = r.ip + seq![','] + tail3;
    let tail1 = f1 + seq![','] + tail2;
    assert(csv_row(r) =~= f0 + seq![','] + tail1);
    lemma_split_concat(f0, tail1);
    assert(tail1 =~= f1 + seq![','] + tail2);
    lemma_split_concat(f1, tail2);
    assert(tail2 =~= r.ip + seq![','] + tail3);
    lemma_split_concat(r.ip, tail3);
    assert(tail3 =~= r.proto + seq![','] + tail4);
    lemma_split_concat(r.proto, tail4);
    assert(tail4 =~= f4 + seq![','] + tail5);
    lemma_split_concat(f4, tail5);
    lemma_split_concat(r.service, join_comma(r.hostnames));
    lemma_join_split(r.hostnames);
    let fields = split_commas(csv_row(r));
    assert(fields =~= seq![f0, f1, r.ip, r.proto, f4, r.service] + r.hostnames);
    assert(fields.skip(6) =~= r.hostnames);
}

/// Idempotence: a run over the same document text twice yields exactly
/// twice that document's records, the second half equal to the first pair
/// for pair.
pub proof fn lemma_same_document_twice(t: Seq<char>)
    ensures
        xml_doc(t) is None ==> contents_records(seq![t, t], 0) is None,
        xml_doc(t) matches Some(doc) ==> match doc_records(doc) {
            Ok(rs) => {
                &&& contents_records(seq![t, t], 0) == Some(
                    Ok::<Seq<RecordV>, ScanError>(rs + rs),
                )
                &&& forall|i: int| 0 <= i < rs.len() ==> (rs + rs)[rs.len() + i] == #[trigger] rs[i]
            },
            Err(e) => contents_records(seq![t, t], 0) == Some(
                Err::<Seq<RecordV>, ScanError>(e),
            ),
        },
{
    let texts = seq![t, t];
    assert(texts[0] == t);
    assert(texts[1] == t);
    if xml_doc(t) is Some {
        let doc = xml_doc(t)->0;
        if doc_records(doc) is Ok {
            let rs = doc_records(doc)->Ok_0;
            assert(contents_records(texts, 2) == Some(
                Ok::<Seq<RecordV>, ScanError>(Seq::empty()),
            ));
            assert(contents_records(texts, 1) == Some(
                Ok::<Seq<RecordV>, ScanError>(rs + Seq::empty()),
            ));
            assert(rs + Seq::<RecordV>::empty() =~= rs);
            assert(rs + (rs + Seq::<RecordV>::empty()) =~= rs + rs);
        }
    }
}

/// A port in any state but `open` yields no record and no error, as long as
/// its identity fields are in order.
pub proof fn lemma_non_open_port_skipped(
    p: NodeV,
    hostnames: Seq<Seq<char>>,
    ip: Seq<char>,
    start: u64,
    end: u64,
)
    requires
        attr_of(p, "portid"@) is Some,
        spec_parse_u16(attr_of(p, "portid"@)->0) is Some,
        find_desc(p, "state"@, Some("state"@)) is Some,
        attr_of(find_desc(p, "state"@, Some("state"@))->0, "state"@)->0 != "open"@,
    ensures
        port_record(p, hostnames, ip, start, end) == Ok::<Option<RecordV>, ScanError>(None),
{
}

/// A host whose other fields are in order but that has no ports section
/// aborts the host's extraction with the structural error naming it.
pub proof fn lemma_missing_ports_aborts(h: NodeV)
    requires
        host_times(h) is Ok,
        host_hostnames(h) is Ok,
        host_address(h) is Ok,
        find_desc(h, "ports"@, None) is None,
    ensures
        host_records(h) == Err::<Seq<RecordV>, ScanError>(ScanError::MissingPorts),
{
}

proof fn lemma_ports_error_taxonomy(
    children: Seq<NodeV>,
    i: int,
    hostnames: Seq<Seq<char>>,
    ip: Seq<char>,
    start: u64,
    end: u64,
)
    ensures
        ports_records(children, i, hostnames, ip, start, end) matches Err(e) ==> e.is_structural()
            || e.is_format(),
    decreases children.len() - i,
{
    if 0 <= i < children.len() {
        lemma_ports_error_taxonomy(children, i + 1, hostnames, ip, start, end);
    }
}

proof fn lemma_host_error_taxonomy(h: NodeV)
    ensures
        host_records(h) matches Err(e) ==> e.is_structural() || e.is_format(),
{
    if host_records(h) is Err && host_times(h) is Ok && host_hostnames(h) is Ok && host_address(
        h,
    ) is Ok && find_desc(h, "ports"@, None) is Some {
        let ps = find_desc(h, "ports"@, None)->0;
        let names = host_hostnames(h)->Ok_0;
        let ip = host_address(h)->Ok_0;
        let times = host_times(h)->Ok_0;
        lemma_ports_error_taxonomy(ps.children, 0, names, ip, times.0, times.1);
    }
}

proof fn lemma_hosts_error_taxonomy(hs: Seq<NodeV>, i: int)
    ensures
        hosts_records(hs, i) matches Err(e) ==> e.is_structural() || e.is_format(),
    decreases hs.len() - i,
{
    if 0 <= i < hs.len() {
        lemma_host_error_taxonomy(hs[i]);
        lemma_hosts_error_taxonomy(hs, i + 1);
    }
}

/// A parsed document's extraction fails only with a structural or a format
/// error: a syntax error can come from the markup parser alone.
pub proof fn lemma_doc_error_taxonomy(root: NodeV)
    ensures
        doc_records(root) matches Err(e) ==> e.is_structural() || e.is_format(),
{
    lemma_hosts_error_taxonomy(hosts_in(root), 0);
}

proof fn lemma_bad_host_aborts_from(hs: Seq<NodeV>, i: int, j: int)
    requires
        0 <= i <= j < hs.len(),
        host_records(hs[j]) is Err,
    ensures
        hosts_records(hs, i) is Err,
    decreases j - i,
{
    if i < j {
        lemma_bad_host_aborts_from(hs, i + 1, j);
    }
}

/// One bad host anywhere aborts the whole document's extraction.
pub proof fn lemma_bad_host_aborts(root: NodeV, j: int)
    requires
        0 <= j < hosts_in(root).len(),
        host_records(hosts_in(root)[j]) is Err,
    ensures
        doc_records(root) is Err,
{
    lemma_bad_host_aborts_from(hosts_in(root), 0, j);
}

} // verus!
