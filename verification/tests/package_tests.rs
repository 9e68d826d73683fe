use resource_gateway::exchange::{
    get, get_all, get_impl, redirect_uri, response_document, response_text, Exchange,
    ExchangeAction, ExchangeEvent, ExchangeState, PackageResponse, ResultBody,
};
use resource_gateway::package::{
    options, BuildTarget, PackageCmd, PackageCreateConfig, PACKAGE_TIMEOUT_MS,
};
use resource_gateway::status::Failure;

const ID: u128 = 0xa1a2a3a4b1b2c1c2d1d2d3d4d5d6d7d8;

fn no_options() -> PackageCreateConfig {
    options(None, None, None, None, None)
}

fn graph_cmd() -> PackageCmd {
    PackageCmd { id: ID, target: BuildTarget::Graph("myset".to_string()), config: no_options() }
}

fn response_frame(addr: &str, args: Vec<rosc::OscType>) -> Vec<u8> {
    let message = rosc::OscMessage { addr: addr.to_string(), args };
    rosc::encoder::encode(&rosc::OscPacket::Message(message)).unwrap()
}

fn done(id: u128, filename: &str, progress: u32) -> PackageResponse {
    PackageResponse {
        id,
        error: false,
        result: Some(ResultBody { filename: filename.to_string(), progress }),
    }
}

fn waiting() -> Exchange {
    let mut exchange = Exchange::new(graph_cmd());
    assert_eq!(exchange.step(ExchangeEvent::Started), ExchangeAction::Connect);
    assert!(matches!(exchange.step(ExchangeEvent::Connected), ExchangeAction::Send(_)));
    assert_eq!(exchange.step(ExchangeEvent::Sent), ExchangeAction::Receive);
    exchange
}

#[test]
fn deadline_is_two_seconds() {
    assert_eq!(PACKAGE_TIMEOUT_MS, 2000);
}

#[test]
fn request_shapes_are_validated() {
    let all = PackageCmd::for_request("all", None, no_options()).unwrap();
    assert_eq!(all.target, BuildTarget::All);
    let graph = PackageCmd::for_request("graphs", Some("myset"), no_options()).unwrap();
    assert_eq!(graph.target, BuildTarget::Graph("myset".to_string()));
    let patcher = PackageCmd::for_request("patchers", Some("lead"), no_options()).unwrap();
    assert_eq!(patcher.target, BuildTarget::Patcher("lead".to_string()));
    assert_eq!(PackageCmd::for_request("all", Some("x"), no_options()), None);
    assert_eq!(PackageCmd::for_request("graphs", None, no_options()), None);
    assert_eq!(PackageCmd::for_request("patchers", None, no_options()), None);
    assert_eq!(PackageCmd::for_request("sets", Some("x"), no_options()), None);
    assert_eq!(PackageCmd::for_request("", None, no_options()), None);
}

#[test]
fn unsupported_request_is_not_found() {
    assert_eq!(get_impl("binaries", Some("x"), no_options()), Err(Failure::NotFound));
    assert_eq!(get("all", "x", None, None, None, None, None), Err(Failure::NotFound));
    assert_eq!(get("other", "x", None, None, None, None, None), Err(Failure::NotFound));
}

#[test]
fn get_opens_an_idle_exchange() {
    let exchange = get("graphs", "myset", Some("1.3.0"), Some(true), None, Some(false), None).unwrap();
    assert_eq!(exchange.state, ExchangeState::Idle);
    assert_eq!(exchange.cmd.target, BuildTarget::Graph("myset".to_string()));
    assert_eq!(
        exchange.cmd.config,
        PackageCreateConfig {
            rnbo_version: Some("1.3.0".to_string()),
            include_presets: Some(true),
            include_views: None,
            include_datafiles: None,
            include_binaries: Some(false),
        }
    );
    assert_eq!(exchange.action(), ExchangeAction::Wait);
    let exchange = get_all(None, None, Some(true), None, Some(false)).unwrap();
    assert_eq!(exchange.cmd.target, BuildTarget::All);
    assert_eq!(exchange.cmd.config.include_views, Some(true));
    assert_eq!(exchange.cmd.config.include_datafiles, Some(false));
}

#[test]
fn fresh_ids_are_random_version_four() {
    let a = PackageCmd::all(no_options());
    let b = PackageCmd::graph("g", no_options());
    let c = PackageCmd::patcher("p", no_options());
    assert_ne!(a.id, b.id);
    assert_ne!(b.id, c.id);
    for id in [a.id, b.id, c.id] {
        assert_eq!(
            id & 0x0000_0000_0000_f000_c000_0000_0000_0000,
            0x0000_0000_0000_4000_8000_0000_0000_0000
        );
        assert_eq!(uuid::Uuid::from_u128(id).get_version_num(), 4);
    }
}

#[test]
fn document_of_a_graph_build() {
    assert_eq!(
        graph_cmd().document(),
        "{\"method\":\"package_create\",\"id\":\"a1a2a3a4-b1b2-c1c2-d1d2-d3d4d5d6d7d8\",\"params\":{\"set\":\"myset\"}}"
    );
}

#[test]
fn document_holds_the_options_that_are_present() {
    let cmd = PackageCmd {
        id: 0x0000_0000_0000_4000_8000_0000_0000_00ff,
        target: BuildTarget::Patcher("p".to_string()),
        config: options(Some("1.3.0"), Some(true), Some(false), None, Some(true)),
    };
    assert_eq!(
        cmd.document(),
        "{\"method\":\"package_create\",\"id\":\"00000000-0000-4000-8000-0000000000ff\",\"params\":{\"patcher\":\"p\",\"rnbo_version\":\"1.3.0\",\"include_presets\":true,\"include_views\":false,\"include_datafiles\":true}}"
    );
    let cmd = PackageCmd {
        id: 1,
        target: BuildTarget::All,
        config: options(None, None, None, Some(false), None),
    };
    assert_eq!(
        cmd.document(),
        "{\"method\":\"package_create\",\"id\":\"00000000-0000-0000-0000-000000000001\",\"params\":{\"all\":true,\"include_binaries\":false}}"
    );
}

#[test]
fn document_escapes_texts() {
    let cmd = PackageCmd {
        id: ID,
        target: BuildTarget::Graph("my \"set\"\\\n\u{1}é".to_string()),
        config: options(Some("a\tb"), None, None, None, None),
    };
    let text = cmd.document();
    assert!(text.contains("\"set\":\"my \\\"set\\\"\\\\\\n\\u0001é\""));
    assert!(text.contains("\"rnbo_version\":\"a\\tb\""));
    let value: serde_json::Value = serde_json::from_str(&text).unwrap();
    assert_eq!(value["method"].as_str(), Some("package_create"));
    assert_eq!(value["id"].as_str(), Some("a1a2a3a4-b1b2-c1c2-d1d2-d3d4d5d6d7d8"));
    assert_eq!(value["params"]["set"].as_str(), Some("my \"set\"\\\n\u{1}é"));
    assert_eq!(value["params"]["rnbo_version"].as_str(), Some("a\tb"));
    assert!(value["params"].get("include_presets").is_none());
    assert_eq!(value["params"].as_object().unwrap().len(), 2);
}

#[test]
fn frame_is_an_osc_message_with_the_document() {
    let cmd = graph_cmd();
    let document = cmd.document();
    let frame = cmd.frame();
    let mut expected: Vec<u8> = Vec::new();
    expected.extend_from_slice(b"/rnbo/cmd\0\0\0,s\0\0");
    expected.extend_from_slice(document.as_bytes());
    let padding = 4 - document.len() % 4;
    expected.extend(std::iter::repeat(0u8).take(padding));
    assert_eq!(frame, expected);
    assert_eq!(frame.len() % 4, 0);
    let (rest, packet) = rosc::decoder::decode_udp(&frame).unwrap();
    assert!(rest.is_empty());
    match packet {
        rosc::OscPacket::Message(message) => {
            assert_eq!(message.addr, "/rnbo/cmd");
            assert_eq!(message.args, vec![rosc::OscType::String(document)]);
        }
        _ => panic!("not a message"),
    }
}

#[test]
fn frame_padding_covers_every_length() {
    for extra in 0..8 {
        let name: String = std::iter::repeat('x').take(extra).collect();
        let cmd = PackageCmd { id: ID, target: BuildTarget::Graph(name), config: no_options() };
        let document = cmd.document();
        let frame = cmd.frame();
        let padding = 4 - document.len() % 4;
        assert_eq!(frame.len(), 16 + document.len() + padding);
        assert!(frame[16 + document.len()..].iter().all(|b| *b == 0));
        assert_eq!(&frame[16..16 + document.len()], document.as_bytes());
    }
}

#[test]
fn response_text_reads_a_response_frame() {
    let frame = response_frame("/rnbo/resp", vec![rosc::OscType::String("{\"id\":1}".to_string())]);
    assert_eq!(response_text(&frame), Some("{\"id\":1}".to_string()));
    let frame = response_frame(
        "/rnbo/resp",
        vec![rosc::OscType::String("first".to_string()), rosc::OscType::Int(3)],
    );
    assert_eq!(response_text(&frame), Some("first".to_string()));
}

#[test]
fn response_text_skips_other_frames() {
    let text = rosc::OscType::String("x".to_string());
    assert_eq!(response_text(&response_frame("/rnbo/cmd", vec![text.clone()])), None);
    assert_eq!(response_text(&response_frame("/rnbo/resp/x", vec![text.clone()])), None);
    assert_eq!(response_text(&response_frame("/rnbo/resp", vec![])), None);
    assert_eq!(response_text(&response_frame("/rnbo/resp", vec![rosc::OscType::Int(1), text])), None);
    assert_eq!(response_text(&[]), None);
    assert_eq!(response_text(b"garbage"), None);
    let bundle = rosc::OscPacket::Bundle(rosc::OscBundle {
        timetag: rosc::OscTime { seconds: 0, fractional: 1 },
        content: vec![],
    });
    assert_eq!(response_text(&rosc::encoder::encode(&bundle).unwrap()), None);
}

#[test]
fn response_document_picks_the_first_text() {
    let args = vec![Some("doc".to_string()), None];
    assert_eq!(response_document("/rnbo/resp", &args), Some("doc".to_string()));
    assert_eq!(response_document("/rnbo/other", &args), None);
    assert_eq!(response_document("/rnbo/resp", &vec![None, Some("doc".to_string())]), None);
    assert_eq!(response_document("/rnbo/resp", &vec![]), None);
}

#[test]
fn verdict_of_an_answer() {
    assert!(done(ID, "f", 100).completes(ID));
    assert!(done(ID, "f", 250).completes(ID));
    assert!(!done(ID, "f", 99).completes(ID));
    assert!(!done(ID + 1, "f", 100).completes(ID));
    let error = PackageResponse { id: ID, error: true, result: None };
    assert!(error.fails(ID));
    assert!(!error.completes(ID));
    assert!(!error.fails(ID + 1));
    let both = PackageResponse { id: ID, error: true, ..done(ID, "f", 100) };
    assert!(both.completes(ID));
    assert!(!both.fails(ID));
    let partial = PackageResponse { id: ID, error: true, ..done(ID, "f", 50) };
    assert!(partial.fails(ID));
    let nothing = PackageResponse { id: ID, error: false, result: None };
    assert!(!nothing.fails(ID) && !nothing.completes(ID));
}

#[test]
fn build_of_a_graph_redirects_to_the_package() {
    let mut exchange = Exchange::new(graph_cmd());
    assert!(!exchange.is_finished());
    assert_eq!(exchange.step(ExchangeEvent::Started), ExchangeAction::Connect);
    assert_eq!(exchange.step(ExchangeEvent::Connected), ExchangeAction::Send(graph_cmd().frame()));
    assert_eq!(exchange.step(ExchangeEvent::Sent), ExchangeAction::Receive);
    let action = exchange.step(ExchangeEvent::Response(done(ID, "v1/myset.rnbopack", 100)));
    assert_eq!(action, ExchangeAction::Redirect("/files/packages/v1/myset.rnbopack".to_string()));
    assert_eq!(exchange.state, ExchangeState::Completed("v1/myset.rnbopack".to_string()));
    assert!(exchange.is_finished());
}

#[test]
fn redirect_uri_encodes_the_segments() {
    assert_eq!(redirect_uri("v1/myset.rnbopack"), "/files/packages/v1/myset.rnbopack");
    assert_eq!(redirect_uri("/v 1//my set.rnbopack"), "/files/packages/v%201/my%20set.rnbopack");
    assert_eq!(redirect_uri(""), "/files/packages");
}

#[test]
fn refused_connection_is_a_dependency_failure() {
    let mut exchange = Exchange::new(graph_cmd());
    exchange.step(ExchangeEvent::Started);
    let action = exchange.step(ExchangeEvent::ConnectFailed);
    assert_eq!(action, ExchangeAction::Fail(Failure::DependencyFailure));
    assert_eq!(exchange.state, ExchangeState::DependencyFailure);
    assert_eq!(Failure::DependencyFailure.status_code(), 424);
}

#[test]
fn answers_under_other_ids_do_not_end_the_wait() {
    let mut exchange = waiting();
    for other in [0u128, 1, ID - 1, ID + 1, u128::MAX] {
        let action = exchange.step(ExchangeEvent::Response(done(other, "x", 100)));
        assert_eq!(action, ExchangeAction::Receive);
        let error = PackageResponse { id: other, error: true, result: None };
        assert_eq!(exchange.step(ExchangeEvent::Response(error)), ExchangeAction::Receive);
    }
    assert_eq!(exchange.state, ExchangeState::AwaitingResponse);
    assert_eq!(exchange.step(ExchangeEvent::Unrelated), ExchangeAction::Receive);
}

#[test]
fn progress_does_not_end_the_wait() {
    let mut exchange = waiting();
    for progress in [0, 50, 99] {
        let action = exchange.step(ExchangeEvent::Response(done(ID, "v1/a.rnbopack", progress)));
        assert_eq!(action, ExchangeAction::Receive);
    }
    let action = exchange.step(ExchangeEvent::Response(done(ID, "v1/a.rnbopack", 100)));
    assert_eq!(action, ExchangeAction::Redirect("/files/packages/v1/a.rnbopack".to_string()));
}

#[test]
fn error_answer_is_not_found() {
    let mut exchange = waiting();
    let error = PackageResponse { id: ID, error: true, result: None };
    assert_eq!(exchange.step(ExchangeEvent::Response(error)), ExchangeAction::Fail(Failure::NotFound));
    assert_eq!(exchange.state, ExchangeState::Failed);
    assert_eq!(Failure::NotFound.status_code(), 404);
}

#[test]
fn deadline_without_an_answer_is_a_timeout() {
    let mut exchange = waiting();
    exchange.step(ExchangeEvent::Response(done(ID + 7, "x", 100)));
    exchange.step(ExchangeEvent::Response(done(ID, "x", 10)));
    let action = exchange.step(ExchangeEvent::DeadlineElapsed);
    assert_eq!(action, ExchangeAction::Fail(Failure::Timeout));
    assert_eq!(exchange.state, ExchangeState::TimedOut);
    assert_eq!(Failure::Timeout.status_code(), 504);
    for early in [vec![], vec![ExchangeEvent::Started], vec![ExchangeEvent::Started, ExchangeEvent::Connected]] {
        let mut exchange = Exchange::new(graph_cmd());
        for event in early {
            exchange.step(event);
        }
        assert_eq!(exchange.step(ExchangeEvent::DeadlineElapsed), ExchangeAction::Fail(Failure::Timeout));
    }
}

#[test]
fn failed_send_still_waits_for_an_answer() {
    let mut exchange = Exchange::new(graph_cmd());
    exchange.step(ExchangeEvent::Started);
    exchange.step(ExchangeEvent::Connected);
    assert_eq!(exchange.step(ExchangeEvent::SendFailed), ExchangeAction::Receive);
    let action = exchange.step(ExchangeEvent::Response(done(ID, "a", 100)));
    assert_eq!(action, ExchangeAction::Redirect("/files/packages/a".to_string()));
}

#[test]
fn closed_channel_is_a_dependency_failure() {
    let mut exchange = waiting();
    let action = exchange.step(ExchangeEvent::ChannelClosed);
    assert_eq!(action, ExchangeAction::Fail(Failure::DependencyFailure));
    let mut exchange = Exchange::new(graph_cmd());
    assert_eq!(exchange.step(ExchangeEvent::ChannelClosed), ExchangeAction::Wait);
}

#[test]
fn final_states_stay() {
    let mut exchange = waiting();
    exchange.step(ExchangeEvent::DeadlineElapsed);
    for event in [
        ExchangeEvent::Started,
        ExchangeEvent::Connected,
        ExchangeEvent::Response(done(ID, "a", 100)),
        ExchangeEvent::ChannelClosed,
        ExchangeEvent::DeadlineElapsed,
    ] {
        assert_eq!(exchange.step(event), ExchangeAction::Fail(Failure::Timeout));
    }
    let mut exchange = waiting();
    exchange.step(ExchangeEvent::Response(done(ID, "a", 100)));
    let action = exchange.step(ExchangeEvent::DeadlineElapsed);
    assert_eq!(action, ExchangeAction::Redirect("/files/packages/a".to_string()));
}

#[test]
fn events_out_of_turn_change_nothing() {
    let mut exchange = Exchange::new(graph_cmd());
    assert_eq!(exchange.step(ExchangeEvent::Connected), ExchangeAction::Wait);
    assert_eq!(exchange.step(ExchangeEvent::Sent), ExchangeAction::Wait);
    assert_eq!(exchange.step(ExchangeEvent::Response(done(ID, "a", 100))), ExchangeAction::Wait);
    assert_eq!(exchange.step(ExchangeEvent::ConnectFailed), ExchangeAction::Wait);
    assert_eq!(exchange.step(ExchangeEvent::Started), ExchangeAction::Connect);
    assert_eq!(exchange.step(ExchangeEvent::Started), ExchangeAction::Connect);
    assert_eq!(exchange.step(ExchangeEvent::Response(done(ID, "a", 100))), ExchangeAction::Connect);
}
