//! Serialization: each record as one comma-separated row, and the whole
//! run's report — a summary line with the least start and greatest end over
//! all records, then one row per record.

use vstd::prelude::*;
use crate::num::dec_str;
use crate::num::u64_to_string;
use crate::extract::RecordV;
use crate::extract::ScanError;
use crate::extract::ScanRecord;
use crate::extract::doc_records;
use crate::extract::parse_content;
use crate::extract::records_view;
use crate::xml::xml_doc;

verus! {

/// The entries joined with commas.
pub open spec fn join_comma(names: Seq<Seq<char>>) -> Seq<char>
    decreases names.len(),
{
    if names.len() == 0 {
        Seq::empty()
    } else if names.len() == 1 {
        names[0]
    } else {
        join_comma(names.drop_last()) + seq![','] + names.last()
    }
}

/// The seven comma-separated fields of one record:
/// start, end, address, protocol, port, service, hostnames.
pub open spec fn csv_row(r: RecordV) -> Seq<char> {
    dec_str(r.start as nat) + seq![','] + dec_str(r.end as nat) + seq![','] + r.ip + seq![',']
        + r.proto + seq![','] + dec_str(r.port as nat) + seq![','] + r.service + seq![',']
        + join_comma(r.hostnames)
}

/// The rows joined with line breaks.
pub open spec fn rows_joined(rs: Seq<RecordV>) -> Seq<char>
    decreases rs.len(),
{
    if rs.len() == 0 {
        Seq::empty()
    } else if rs.len() == 1 {
        csv_row(rs[0])
    } else {
        rows_joined(rs.drop_last()) + seq!['\n'] + csv_row(rs.last())
    }
}

/// Least start time among the records; zero when there are none.
pub open spec fn min_start(rs: Seq<RecordV>) -> u64
    decreases rs.len(),
{
    if rs.len() == 0 {
        0
    } else if rs.len() == 1 {
        rs[0].start
    } else if rs.last().start < min_start(rs.drop_last()) {
        rs.last().start
    } else {
        min_start(rs.drop_last())
    }
}

/// Greatest end time among the records; zero when there are none.
pub open spec fn max_end(rs: Seq<RecordV>) -> u64
    decreases rs.len(),
{
    if rs.len() == 0 {
        0
    } else if rs.len() == 1 {
        rs[0].end
    } else if rs.last().end > max_end(rs.drop_last()) {
        rs.last().end
    } else {
        max_end(rs.drop_last())
    }
}

/// The whole report: the summary line, then one row per record, each line
/// ended by a line break; no blank line when there are no records.
pub open spec fn report_view(rs: Seq<RecordV>) -> Seq<char> {
    let summary = "start_time,"@ + dec_str(min_start(rs) as nat) + ",end_time,"@ + dec_str(
        max_end(rs) as nat,
    ) + seq!['\n'];
    if rs.len() == 0 {
        summary
    } else {
        summary + rows_joined(rs) + seq!['\n']
    }
}

/// Append the names joined with commas.
fn push_joined(names: &Vec<String>, out: &mut String)
    ensures
        final(out)@ == old(out)@ + join_comma(names@.map_values(|s: String| s@)),
{
    let ghost nv = names@.map_values(|s: String| s@);
    let mut i: usize = 0;
    while i < names.len()
        invariant
            0 <= i <= names.len(),
            nv == names@.map_values(|s: String| s@),
            nv.len() == names@.len(),
            out@ == old(out)@ + join_comma(nv.take(i as int)),
        decreases names.len() - i,
    {
        if i > 0 {
            out.append(",");
            proof {
                reveal_strlit(",");
                assert(","@ =~= seq![',']);
            }
        }
        out.append(names[i].as_str());
        proof {
            assert(nv.take(i + 1).drop_last() =~= nv.take(i as int));
            assert(nv.take(i + 1).last() == names@[i as int]@);
            if i == 0 {
                assert(join_comma(nv.take(1)) == nv.take(1)[0]);
                assert(out@ =~= old(out)@ + join_comma(nv.take(1)));
            } else {
                assert(out@ =~= old(out)@ + (join_comma(nv.take(i as int)) + seq![',']
                    + names@[i as int]@));
            }
        }
        i += 1;
    }
    proof {
        assert(nv.take(nv.len() as int) =~= nv);
        if nv.len() == 0 {
            assert(out@ =~= old(out)@ + join_comma(nv));
        }
    }
}

impl ScanRecord {
    /// Render the record as one comma-separated row.
    pub fn to_csv(&self) -> (r: String)
        ensures
            r@ == csv_row(self@),
    {
        let mut out = String::new();
        let start_s = u64_to_string(self.timeframe.start);
        out.append(start_s.as_str());
        out.append(",");
        let end_s = u64_to_string(self.timeframe.end);
        out.append(end_s.as_str());
        out.append(",");
        out.append(self.ip.as_str());
        out.append(",");
        out.append(self.proto.as_str());
        out.append(",");
        let port_s = u64_to_string(self.port as u64);
        out.append(port_s.as_str());
        out.append(",");
        out.append(self.service.as_str());
        out.append(",");
        push_joined(&self.hostnames, &mut out);
        proof {
            reveal_strlit(",");
            assert(","@ =~= seq![',']);
            assert(out@ =~= csv_row(self@));
        }
        out
    }
}

/// Render the whole report for the records of one run.
pub fn render_report(records: &Vec<ScanRecord>) -> (r: String)
    ensures
        r@ == report_view(records_view(records@)),
{
    let ghost rv = records_view(records@);
    let mut mn: u64 = 0;
    let mut mx: u64 = 0;
    if records.len() > 0 {
        mn = records[0].timeframe.start;
        mx = records[0].timeframe.end;
        let mut i: usize = 1;
        while i < records.len()
            invariant
                1 <= i <= records.len(),
                rv == records_view(records@),
                rv.len() == records@.len(),
                mn == min_start(rv.take(i as int)),
                mx == max_end(rv.take(i as int)),
            decreases records.len() - i,
        {
            proof {
                assert(rv.take(i + 1).drop_last() =~= rv.take(i as int));
                assert(rv.take(i + 1).last() == records@[i as int]@);
            }
            if records[i].timeframe.start < mn {
                mn = records[i].timeframe.start;
            }
            if records[i].timeframe.end > mx {
                mx = records[i].timeframe.end;
            }
            i += 1;
        }
        proof {
            assert(rv.take(rv.len() as int) =~= rv);
        }
    }
    let mut out = String::from_str("start_time,");
    let mn_s = u64_to_string(mn);
    out.append(mn_s.as_str());
    out.append(",end_time,");
    let mx_s = u64_to_string(mx);
    out.append(mx_s.as_str());
    out.append("\n");
    let ghost summary = out@;
    proof {
        reveal_strlit("\n");
        assert("\n"@ =~= seq!['\n']);
        assert(summary =~= "start_time,"@ + dec_str(min_start(rv) as nat) + ",end_time,"@
            + dec_str(max_end(rv) as nat) + seq!['\n']);
    }
    if records.len() == 0 {
        proof {
            assert(out@ =~= report_view(rv));
        }
        return out;
    }
    let mut i: usize = 0;
    while i < records.len()
        invariant
            0 <= i <= records.len(),
            rv == records_view(records@),
            rv.len() == records@.len(),
            summary == "start_time,"@ + dec_str(min_start(rv) as nat) + ",end_time,"@ + dec_str(
                max_end(rv) as nat,
            ) + seq!['\n'],
            out@ == summary + rows_joined(rv.take(i as int)),
        decreases records.len() - i,
    {
        if i > 0 {
            out.append("\n");
            proof {
                reveal_strlit("\n");
                assert("\n"@ =~= seq!['\n']);
            }
        }
        let row = records[i].to_csv();
        out.append(row.as_str());
        proof {
            assert(rv.take(i + 1).drop_last() =~= rv.take(i as int));
            assert(rv.take(i + 1).last() == records@[i as int]@);
            if i == 0 {
                assert(rows_joined(rv.take(1)) == csv_row(rv.take(1)[0]));
                assert(out@ =~= summary + rows_joined(rv.take(1)));
            } else {
                assert(out@ =~= summary + (rows_joined(rv.take(i as int)) + seq!['\n'] + csv_row(
                    records@[i as int]@,
                )));
            }
        }
        i += 1;
    }
    out.append("\n");
    proof {
        reveal_strlit("\n");
        assert("\n"@ =~= seq!['\n']);
        assert(rv.take(rv.len() as int) =~= rv);
        assert(out@ =~= report_view(rv));
    }
    out
}

/// Outcome of one run over the given document texts, read left to right:
/// nothing where some text does not parse as markup, otherwise the first
/// extraction error or the records of every document in order.
pub open spec fn contents_records(texts: Seq<Seq<char>>, i: int) -> Option<
    Result<Seq<RecordV>, ScanError>,
>
    decreases texts.len() - i,
{
    if i < 0 || i >= texts.len() {
        Some(Ok(Seq::empty()))
    } else {
        match xml_doc(texts[i]) {
            None => None,
            Some(doc) => match doc_records(doc) {
                Err(e) => Some(Err(e)),
                Ok(rs) => match contents_records(texts, i + 1) {
                    None => None,
                    Some(Err(e)) => Some(Err(e)),
                    Some(Ok(rest)) => Some(Ok(rs + rest)),
                },
            },
        }
    }
}

/// Process a whole run: extract the records of every document text in
/// order, and render the report over all of them; the first failure of any
/// kind aborts the run.
pub fn process_contents(contents: &Vec<String>) -> (r: Result<String, ScanError>)
    ensures
        match contents_records(contents@.map_values(|s: String| s@), 0) {
            Some(Ok(rs)) => r is Ok && r->Ok_0@ == report_view(rs),
            Some(Err(e)) => r == Err::<String, ScanError>(e),
            None => r is Err && r->Err_0 is Syntax,
        },
{
    let ghost texts = contents@.map_values(|s: String| s@);
    let mut records: Vec<ScanRecord> = Vec::new();
    let mut i: usize = 0;
    while i < contents.len()
        invariant
            0 <= i <= contents.len(),
            texts == contents@.map_values(|s: String| s@),
            texts.len() == contents@.len(),
            contents_records(texts, i as int) matches Some(Ok(rest)) ==> {
                &&& contents_records(texts, 0) is Some
                &&& contents_records(texts, 0)->0 is Ok
                &&& contents_records(texts, 0)->0->Ok_0 == records_view(records@) + rest
            },
            contents_records(texts, i as int) matches Some(Err(e)) ==> contents_records(texts, 0)
                == Some(Err::<Seq<RecordV>, ScanError>(e)),
            contents_records(texts, i as int) is None ==> contents_records(texts, 0) is None,
        decreases contents.len() - i,
    {
        proof {
            assert(texts[i as int] == contents@[i as int]@);
        }
        match parse_content(contents[i].as_str()) {
            Err(e) => {
                return Err(e);
            },
            Ok(mut rs) => {
                let ghost rs_snap = rs@;
                let ghost before = records@;
                records.append(&mut rs);
                proof {
                    assert(records_view(records@) =~= records_view(before) + records_view(
                        rs_snap,
                    ));
                    if contents_records(texts, i + 1) is Some && contents_records(
                        texts,
                        i + 1,
                    )->0 is Ok {
                        let rest = contents_records(texts, i + 1)->0->Ok_0;
                        assert(records_view(records@) + rest =~= records_view(before)
                            + (records_view(rs_snap) + rest));
                    }
                }
            },
        }
        i += 1;
    }
    proof {
        assert(contents_records(texts, texts.len() as int) == Some(
            Ok::<Seq<RecordV>, ScanError>(Seq::empty()),
        ));
        assert(records_view(records@) + Seq::<RecordV>::empty() =~= records_view(records@));
    }
    let report = render_report(&records);
    Ok(report)
}

impl ScanError {
    /// What the error's description says.
    pub open spec fn spec_message(self) -> Seq<char> {
        match self {
            ScanError::MissingStartTime => "node has no start time"@,
            ScanError::BadStartTime => "can't parse start time into a number"@,
            ScanError::MissingEndTime => "node has no end time"@,
            ScanError::BadEndTime => "can't parse end time into a number"@,
            ScanError::MissingHostnames => "node has no hostnames"@,
            ScanError::EmptyHostnames => "hostnames list is empty"@,
            ScanError::MissingAddress => "host doesn't have address with addr attribute"@,
            ScanError::MissingPorts => "host has no ports"@,
            ScanError::MissingPortId => "port has no id (number)"@,
            ScanError::BadPortId => "can't parse port id (number) as integer"@,
            ScanError::MissingState(port) => "port "@ + dec_str(port as nat)
                + " doesn't have state, can't determine if it's opened or closed"@,
            ScanError::MissingProtocol(_) => "port has no protocol name"@,
            ScanError::Syntax(s) => "can't parse an XML document: "@ + s@,
        }
    }

    /// Human-readable description of the failure.
    pub fn message(&self) -> (r: String)
        ensures
            r@ == self.spec_message(),
    {
        match self {
            ScanError::MissingStartTime => String::from_str("node has no start time"),
            ScanError::BadStartTime => String::from_str("can't parse start time into a number"),
            ScanError::MissingEndTime => String::from_str("node has no end time"),
            ScanError::BadEndTime => String::from_str("can't parse end time into a number"),
            ScanError::MissingHostnames => String::from_str("node has no hostnames"),
            ScanError::EmptyHostnames => String::from_str("hostnames list is empty"),
            ScanError::MissingAddress => String::from_str(
                "host doesn't have address with addr attribute",
            ),
            ScanError::MissingPorts => String::from_str("host has no ports"),
            ScanError::MissingPortId => String::from_str("port has no id (number)"),
            ScanError::BadPortId => String::from_str("can't parse port id (number) as integer"),
            ScanError::MissingState(port) => {
                let mut out = String::from_str("port ");
                let port_s = u64_to_string(*port as u64);
                out.append(port_s.as_str());
                out.append(" doesn't have state, can't determine if it's opened or closed");
                out
            },
            ScanError::MissingProtocol(_) => String::from_str("port has no protocol name"),
            ScanError::Syntax(s) => {
                let mut out = String::from_str("can't parse an XML document: ");
                out.append(s.as_str());
                out
            },
        }
    }
}

} // verus!
