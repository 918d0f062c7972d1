use nm_parse::Attr;
use nm_parse::ScanError;
use nm_parse::ScanRecord;
use nm_parse::TimeFrame;
use nm_parse::XmlNode;
use nm_parse::extract_host;
use nm_parse::parse_content;
use nm_parse::process_contents;
use nm_parse::render_report;

fn one_doc(doc: &str) -> Vec<String> {
    vec![String::from(doc)]
}

const FULL_HOST: &str = "<nmaprun><host starttime=\"100\" endtime=\"200\">\
<hostnames><hostname name=\"a\"/><hostname name=\"b\"/></hostnames>\
<address addr=\"10.0.0.1\" addrtype=\"ipv4\"/>\
<ports><port protocol=\"tcp\" portid=\"22\">\
<state state=\"open\"/><service name=\"ssh\"/></port></ports>\
</host></nmaprun>";

#[test]
fn one_host_one_open_port() {
    let out = process_contents(&one_doc(FULL_HOST)).unwrap();
    assert_eq!(out, "start_time,100,end_time,200\n100,200,10.0.0.1,tcp,22,ssh,a,b\n");
}

#[test]
fn no_service_substructure_renders_sentinel() {
    let doc = "<nmaprun><host starttime=\"100\" endtime=\"200\">\
<hostnames><hostname name=\"a\"/><hostname name=\"b\"/></hostnames>\
<address addr=\"10.0.0.1\"/>\
<ports><port protocol=\"tcp\" portid=\"22\"><state state=\"open\"/></port></ports>\
</host></nmaprun>";
    let out = process_contents(&one_doc(doc)).unwrap();
    assert_eq!(
        out,
        "start_time,100,end_time,200\n100,200,10.0.0.1,tcp,22,<no service info>,a,b\n"
    );
}

#[test]
fn unnamed_service_renders_other_sentinel() {
    let doc = "<nmaprun><host starttime=\"100\" endtime=\"200\">\
<hostnames><hostname name=\"a\"/></hostnames>\
<address addr=\"10.0.0.1\"/>\
<ports><port protocol=\"tcp\" portid=\"22\"><state state=\"open\"/><service/></port></ports>\
</host></nmaprun>";
    let recs = parse_content(doc).unwrap();
    assert_eq!(recs.len(), 1);
    assert_eq!(recs[0].service, "<no service name>");
}

#[test]
fn zero_hosts_yield_empty_report() {
    let out = process_contents(&one_doc("<nmaprun></nmaprun>")).unwrap();
    assert_eq!(out, "start_time,0,end_time,0\n");
}

#[test]
fn record_count_equals_open_port_count() {
    let doc = "<nmaprun><host starttime=\"1\" endtime=\"2\">\
<hostnames><hostname name=\"a\"/></hostnames>\
<address addr=\"10.0.0.1\"/>\
<ports>\
<port protocol=\"tcp\" portid=\"22\"><state state=\"open\"/></port>\
<port protocol=\"tcp\" portid=\"23\"><state state=\"closed\"/></port>\
<port protocol=\"udp\" portid=\"53\"><state state=\"open\"/></port>\
<extraports state=\"closed\" count=\"99\"/>\
</ports></host></nmaprun>";
    let recs = parse_content(doc).unwrap();
    assert_eq!(recs.len(), 2);
    assert_eq!(recs[0].port, 22);
    assert_eq!(recs[1].port, 53);
}

#[test]
fn filtered_and_closed_ports_skip_without_abort() {
    let doc = "<nmaprun><host starttime=\"1\" endtime=\"2\">\
<hostnames><hostname name=\"a\"/></hostnames>\
<address addr=\"10.0.0.1\"/>\
<ports>\
<port protocol=\"tcp\" portid=\"1\"><state state=\"filtered\"/></port>\
<port protocol=\"tcp\" portid=\"2\"><state state=\"closed\"/></port>\
</ports></host></nmaprun>";
    let recs = parse_content(doc).unwrap();
    assert_eq!(recs.len(), 0);
}

#[test]
fn adjacent_duplicate_hostnames_collapse() {
    let doc = "<nmaprun><host starttime=\"1\" endtime=\"2\">\
<hostnames><hostname name=\"a\"/><hostname name=\"a\"/><hostname name=\"b\"/></hostnames>\
<address addr=\"10.0.0.1\"/>\
<ports><port protocol=\"tcp\" portid=\"22\"><state state=\"open\"/></port></ports>\
</host></nmaprun>";
    let recs = parse_content(doc).unwrap();
    assert_eq!(recs[0].hostnames, vec![String::from("a"), String::from("b")]);
}

#[test]
fn non_adjacent_duplicate_hostnames_stay() {
    let doc = "<nmaprun><host starttime=\"1\" endtime=\"2\">\
<hostnames><hostname name=\"a\"/><hostname name=\"b\"/><hostname name=\"a\"/></hostnames>\
<address addr=\"10.0.0.1\"/>\
<ports><port protocol=\"tcp\" portid=\"22\"><state state=\"open\"/></port></ports>\
</host></nmaprun>";
    let recs = parse_content(doc).unwrap();
    assert_eq!(
        recs[0].hostnames,
        vec![String::from("a"), String::from("b"), String::from("a")]
    );
}

#[test]
fn first_address_match_wins() {
    let doc = "<nmaprun><host starttime=\"1\" endtime=\"2\">\
<hostnames><hostname name=\"a\"/></hostnames>\
<address addrtype=\"mac\"/>\
<address addr=\"10.0.0.1\"/>\
<address addr=\"10.0.0.2\"/>\
<ports><port protocol=\"tcp\" portid=\"22\"><state state=\"open\"/></port></ports>\
</host></nmaprun>";
    let recs = parse_content(doc).unwrap();
    assert_eq!(recs[0].ip, "10.0.0.1");
}

#[test]
fn processing_same_document_twice_doubles_records() {
    let contents = vec![String::from(FULL_HOST), String::from(FULL_HOST)];
    let out = process_contents(&contents).unwrap();
    let lines: Vec<&str> = out.lines().collect();
    assert_eq!(lines.len(), 3);
    assert_eq!(lines[1], lines[2]);
    assert_eq!(lines[0], "start_time,100,end_time,200");
}

#[test]
fn summary_spans_all_hosts() {
    let host2 = "<nmaprun><host starttime=\"50\" endtime=\"300\">\
<hostnames><hostname name=\"c\"/></hostnames>\
<address addr=\"10.0.0.2\"/>\
<ports><port protocol=\"tcp\" portid=\"80\"><state state=\"open\"/></port></ports>\
</host></nmaprun>";
    let contents = vec![String::from(FULL_HOST), String::from(host2)];
    let out = process_contents(&contents).unwrap();
    let lines: Vec<&str> = out.lines().collect();
    assert_eq!(lines[0], "start_time,50,end_time,300");
    assert_eq!(lines[1], "100,200,10.0.0.1,tcp,22,ssh,a,b");
    assert_eq!(lines[2], "50,300,10.0.0.2,tcp,80,<no service info>,c");
}

#[test]
fn row_splits_back_into_fields() {
    let recs = parse_content(FULL_HOST).unwrap();
    let row = recs[0].to_csv();
    let fields: Vec<&str> = row.splitn(7, ',').collect();
    assert_eq!(fields[0].parse::<u64>().unwrap(), recs[0].timeframe.start);
    assert_eq!(fields[1].parse::<u64>().unwrap(), recs[0].timeframe.end);
    assert_eq!(fields[2], recs[0].ip);
    assert_eq!(fields[3], recs[0].proto);
    assert_eq!(fields[4].parse::<u16>().unwrap(), recs[0].port);
    assert_eq!(fields[5], recs[0].service);
    let hostnames: Vec<&str> = fields[6].split(',').collect();
    assert_eq!(hostnames, recs[0].hostnames);
}

#[test]
fn to_csv_renders_all_seven_fields() {
    let rec = ScanRecord {
        hostnames: vec![String::from("h1"), String::from("h2")],
        ip: String::from("1.2.3.4"),
        proto: String::from("udp"),
        service: String::from("dns"),
        port: 53,
        timeframe: TimeFrame { start: 5, end: 9 },
    };
    assert_eq!(rec.to_csv(), "5,9,1.2.3.4,udp,53,dns,h1,h2");
}

#[test]
fn render_report_of_no_records() {
    let records: Vec<ScanRecord> = vec![];
    assert_eq!(render_report(&records), "start_time,0,end_time,0\n");
}

#[test]
fn missing_ports_aborts_run() {
    let doc = "<nmaprun><host starttime=\"1\" endtime=\"2\">\
<hostnames><hostname name=\"a\"/></hostnames>\
<address addr=\"10.0.0.1\"/>\
</host></nmaprun>";
    let err = parse_content(doc).unwrap_err();
    assert!(matches!(err, ScanError::MissingPorts));
    let contents = one_doc(doc);
    assert!(process_contents(&contents).is_err());
}

#[test]
fn missing_start_time_aborts() {
    let doc = "<nmaprun><host endtime=\"2\"></host></nmaprun>";
    assert!(matches!(parse_content(doc).unwrap_err(), ScanError::MissingStartTime));
}

#[test]
fn unparsable_start_time_aborts() {
    let doc = "<nmaprun><host starttime=\"x\" endtime=\"2\"></host></nmaprun>";
    assert!(matches!(parse_content(doc).unwrap_err(), ScanError::BadStartTime));
}

#[test]
fn missing_end_time_aborts() {
    let doc = "<nmaprun><host starttime=\"1\"></host></nmaprun>";
    assert!(matches!(parse_content(doc).unwrap_err(), ScanError::MissingEndTime));
}

#[test]
fn unparsable_end_time_aborts() {
    let doc = "<nmaprun><host starttime=\"1\" endtime=\"-2\"></host></nmaprun>";
    assert!(matches!(parse_content(doc).unwrap_err(), ScanError::BadEndTime));
}

#[test]
fn missing_hostnames_aborts() {
    let doc = "<nmaprun><host starttime=\"1\" endtime=\"2\">\
<address addr=\"10.0.0.1\"/><ports/></host></nmaprun>";
    assert!(matches!(parse_content(doc).unwrap_err(), ScanError::MissingHostnames));
}

#[test]
fn empty_hostnames_abort() {
    let doc = "<nmaprun><host starttime=\"1\" endtime=\"2\">\
<hostnames></hostnames><address addr=\"10.0.0.1\"/><ports/></host></nmaprun>";
    assert!(matches!(parse_content(doc).unwrap_err(), ScanError::EmptyHostnames));
}

#[test]
fn missing_address_aborts() {
    let doc = "<nmaprun><host starttime=\"1\" endtime=\"2\">\
<hostnames><hostname name=\"a\"/></hostnames><ports/></host></nmaprun>";
    assert!(matches!(parse_content(doc).unwrap_err(), ScanError::MissingAddress));
}

#[test]
fn missing_port_id_aborts() {
    let doc = "<nmaprun><host starttime=\"1\" endtime=\"2\">\
<hostnames><hostname name=\"a\"/></hostnames><address addr=\"10.0.0.1\"/>\
<ports><port protocol=\"tcp\"><state state=\"open\"/></port></ports></host></nmaprun>";
    assert!(matches!(parse_content(doc).unwrap_err(), ScanError::MissingPortId));
}

#[test]
fn oversized_port_id_aborts() {
    let doc = "<nmaprun><host starttime=\"1\" endtime=\"2\">\
<hostnames><hostname name=\"a\"/></hostnames><address addr=\"10.0.0.1\"/>\
<ports><port protocol=\"tcp\" portid=\"70000\"><state state=\"open\"/></port></ports>\
</host></nmaprun>";
    assert!(matches!(parse_content(doc).unwrap_err(), ScanError::BadPortId));
}

#[test]
fn missing_state_aborts_naming_port() {
    let doc = "<nmaprun><host starttime=\"1\" endtime=\"2\">\
<hostnames><hostname name=\"a\"/></hostnames><address addr=\"10.0.0.1\"/>\
<ports><port protocol=\"tcp\" portid=\"22\"/></ports></host></nmaprun>";
    assert!(matches!(parse_content(doc).unwrap_err(), ScanError::MissingState(22)));
}

#[test]
fn missing_protocol_aborts_naming_port() {
    let doc = "<nmaprun><host starttime=\"1\" endtime=\"2\">\
<hostnames><hostname name=\"a\"/></hostnames><address addr=\"10.0.0.1\"/>\
<ports><port portid=\"22\"><state state=\"open\"/></port></ports></host></nmaprun>";
    assert!(matches!(parse_content(doc).unwrap_err(), ScanError::MissingProtocol(22)));
}

#[test]
fn malformed_markup_is_a_syntax_error() {
    let err = parse_content("<nmaprun><host").unwrap_err();
    assert!(matches!(err, ScanError::Syntax(_)));
    assert!(err.message().starts_with("can't parse an XML document: "));
}

#[test]
fn error_message_names_the_port() {
    let doc = "<nmaprun><host starttime=\"1\" endtime=\"2\">\
<hostnames><hostname name=\"a\"/></hostnames><address addr=\"10.0.0.1\"/>\
<ports><port protocol=\"tcp\" portid=\"443\"/></ports></host></nmaprun>";
    let err = parse_content(doc).unwrap_err();
    assert_eq!(
        err.message(),
        "port 443 doesn't have state, can't determine if it's opened or closed"
    );
}

fn elem(tag: &str, attrs: Vec<(&str, &str)>, children: Vec<XmlNode>) -> XmlNode {
    XmlNode {
        is_element: true,
        tag: String::from(tag),
        attrs: attrs
            .into_iter()
            .map(|(n, v)| Attr { name: String::from(n), value: String::from(v) })
            .collect(),
        children,
    }
}

#[test]
fn extract_host_works_on_a_hand_built_tree() {
    let host = elem(
        "host",
        vec![("starttime", "7"), ("endtime", "8")],
        vec![
            elem("hostnames", vec![], vec![elem("hostname", vec![("name", "a")], vec![])]),
            elem("address", vec![("addr", "10.0.0.9")], vec![]),
            elem(
                "ports",
                vec![],
                vec![elem(
                    "port",
                    vec![("protocol", "tcp"), ("portid", "443")],
                    vec![
                        elem("state", vec![("state", "open")], vec![]),
                        elem("service", vec![("name", "https")], vec![]),
                    ],
                )],
            ),
        ],
    );
    let recs = extract_host(&host).unwrap();
    assert_eq!(recs.len(), 1);
    assert_eq!(recs[0].to_csv(), "7,8,10.0.0.9,tcp,443,https,a");
}

#[test]
fn hostname_names_collected_in_document_order() {
    let doc = "<nmaprun><host starttime=\"1\" endtime=\"2\">\
<hostnames><outer name=\"x\"><inner name=\"y\"/></outer><hostname name=\"z\"/></hostnames>\
<address addr=\"10.0.0.1\"/>\
<ports><port protocol=\"tcp\" portid=\"22\"><state state=\"open\"/></port></ports>\
</host></nmaprun>";
    let recs = parse_content(doc).unwrap();
    assert_eq!(
        recs[0].hostnames,
        vec![String::from("x"), String::from("y"), String::from("z")]
    );
}
