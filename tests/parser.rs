use security_log_analyser::decode::{parse_xml_event, DecodeError};
use security_log_analyser::event::Event;

fn get_test_xml() -> &'static str {
    r#"
    <Event>
  <System>
    <Provider Name="Microsoft-Windows-Sysmon" Guid="{...}" />
    <EventID>1</EventID>
    <Version>5</Version>
    <Level>4</Level>
    <Task>1</Task>
    <Opcode>0</Opcode>
    <Keywords>0x8000000000000000</Keywords>
    <TimeCreated SystemTime="2025-01-01T10:00:00.000Z"/>
    <EventRecordID>42</EventRecordID>
    <Correlation/>
    <Execution ProcessID="1000" ThreadID="2000"/>
    <Channel>Microsoft-Windows-Sysmon/Operational</Channel>
    <Computer>TEST-PC</Computer>
    <Security UserID="S-1-5-18"/>
  </System>
  <EventData>
    <Data Name="UtcTime">2025-01-01 10:00:00.000</Data>
    <Data Name="ProcessGuid">{11111111-2222-3333-4444-555555555555}</Data>
    <Data Name="ProcessId">1000</Data>
    <Data Name="Image">C:\Windows\System32\cmd.exe</Data>
    <Data Name="CommandLine">cmd.exe /c echo Hello</Data>
    <Data Name="CurrentDirectory">C:\Users\Test</Data>
    <Data Name="User">TEST-PC\Administrator</Data>
    <Data Name="LogonGuid">{AAAAAAAA-BBBB-CCCC-DDDD-EEEEEEEEEEEE}</Data>
    <Data Name="LogonId">0x3e7</Data>
    <Data Name="TerminalSessionId">1</Data>
    <Data Name="IntegrityLevel">System</Data>
    <Data Name="Hashes">SHA1=1234567890ABCDEF</Data>
    <Data Name="ParentProcessGuid">{99999999-8888-7777-6666-555555555555}</Data>
    <Data Name="ParentProcessId">4321</Data>
    <Data Name="ParentImage">C:\Windows\explorer.exe</Data>
    <Data Name="ParentCommandLine">explorer.exe</Data>
  </EventData>
</Event>
    "#
}

#[test]
fn check_valid_process_create_event() {
    let xml = get_test_xml();

    let event = Event::from_str(xml).expect("Should parse valid Sysmon ProcessCreate event");

    match event {
        Event::ProcessCreate(ev) => {
            assert_eq!(ev.event_data.process_id, 1000);
            assert_eq!(ev.event_data.parent_process_id, 4321);
            assert!(ev.event_data.image.ends_with("cmd.exe"));
            assert!(ev.event_data.parent_image.ends_with("explorer.exe"));
        }
        _ => panic!("Expected ProcessCreate event"),
    }
}

#[test]
fn parse_valid_process_create_event() {
    let xml = get_test_xml();
    let event = parse_xml_event(xml).expect("Should parse valid Sysmon ProcessCreate event");
    match event {
        Event::ProcessCreate(ev) => {
            assert_eq!(ev.event_data.process_id, 1000);
            assert_eq!(ev.event_data.parent_process_id, 4321);
            assert!(ev.event_data.image.ends_with("cmd.exe"));
            assert!(ev.event_data.parent_image.ends_with("explorer.exe"));
        }
        _ => panic!("Expected ProcessCreate event"),
    }
}

#[test]
fn test_parse_xml_event_invalid() {
    // Missing closing tag, malformed XML
    let bad_xml = "<System><EventID>1";
    let result = parse_xml_event(bad_xml);
    assert!(result.is_err(), "Expected error for malformed XML");
}

#[test]
fn header_fields_are_decoded() {
    let event = parse_xml_event(get_test_xml()).unwrap();
    match event {
        Event::ProcessCreate(ev) => {
            assert_eq!(ev.system.event_id, 1);
            assert_eq!(ev.system.system_time, "2025-01-01T10:00:00.000Z");
            assert_eq!(ev.system.computer, "TEST-PC");
            assert_eq!(ev.event_data.command_line, "cmd.exe /c echo Hello");
            assert_eq!(ev.event_data.user, "TEST-PC\\Administrator");
        }
        _ => panic!("Expected ProcessCreate event"),
    }
}

fn network_xml(initiated: &str, port: &str) -> String {
    format!(
        "<Event><System><EventID>3</EventID><TimeCreated SystemTime=\"2025-01-01T10:00:00Z\"/>\
         <Computer>HOST</Computer></System><EventData>\
         <Data Name=\"Image\">C:\\Tools\\curl.exe</Data>\
         <Data Name=\"Protocol\">tcp</Data>\
         <Data Name=\"Initiated\">{}</Data>\
         <Data Name=\"DestinationIp\">10.0.0.5</Data>\
         <Data Name=\"DestinationPort\">{}</Data>\
         </EventData></Event>",
        initiated, port
    )
}

#[test]
fn initiated_connection_decodes_as_outbound() {
    match parse_xml_event(&network_xml("true", "50000")).unwrap() {
        Event::OutboundNetwork(n) => {
            assert_eq!(n.event_data.destination_port, 50000);
            assert_eq!(n.event_data.destination_ip, "10.0.0.5");
            assert_eq!(n.event_data.protocol, "tcp");
            assert!(n.event_data.initiated);
            assert!(n.event_data.user.is_none());
        }
        _ => panic!("Expected outbound network event"),
    }
}

#[test]
fn accepted_connection_decodes_as_inbound() {
    match parse_xml_event(&network_xml("false", "443")).unwrap() {
        Event::InboundNetwork(n) => assert_eq!(n.event_data.destination_port, 443),
        _ => panic!("Expected inbound network event"),
    }
}

#[test]
fn out_of_range_port_is_not_an_event() {
    assert_eq!(parse_xml_event(&network_xml("true", "70000")).err(), Some(DecodeError::NotAnEvent));
}

#[test]
fn file_create_is_decoded() {
    let xml = "<Event><System><EventID>11</EventID><TimeCreated SystemTime=\"t\"/>\
               <Computer>HOST</Computer></System><EventData>\
               <Data Name=\"Image\">C:\\a\\b.exe</Data>\
               <Data Name=\"TargetFilename\">C:\\tmp\\x.txt</Data></EventData></Event>";
    match parse_xml_event(xml).unwrap() {
        Event::FileCreate(f) => {
            assert_eq!(f.event_data.target_filename, "C:\\tmp\\x.txt");
            assert_eq!(f.system.system_time, "t");
        }
        _ => panic!("Expected FileCreate event"),
    }
}

#[test]
fn unsupported_event_kind_is_rejected() {
    let xml = "<Event><System><EventID>5</EventID><TimeCreated SystemTime=\"t\"/>\
               <Computer>HOST</Computer></System></Event>";
    assert_eq!(parse_xml_event(xml).err(), Some(DecodeError::NotAnEvent));
}

#[test]
fn malformed_xml_error_kind() {
    assert_eq!(parse_xml_event("<System><EventID>1").err(), Some(DecodeError::MalformedXml));
}
