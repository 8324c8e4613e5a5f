use lsdblox::request::{handle_event, parse_item_id, HandlerEvent, HandlerStep, Reply};

#[test]
fn item_ids_as_i32_parse_reads_them() {
    assert_eq!(parse_item_id("42"), Some(42));
    assert_eq!(parse_item_id("-7"), Some(-7));
    assert_eq!(parse_item_id("+5"), Some(5));
    assert_eq!(parse_item_id("007"), Some(7));
    assert_eq!(parse_item_id("2147483647"), Some(i32::MAX));
    assert_eq!(parse_item_id("-2147483648"), Some(i32::MIN));
    assert_eq!(parse_item_id("2147483648"), None);
    assert_eq!(parse_item_id("-2147483649"), None);
    assert_eq!(parse_item_id("99999999999999999999999"), None);
    assert_eq!(parse_item_id(""), None);
    assert_eq!(parse_item_id("-"), None);
    assert_eq!(parse_item_id("+"), None);
    assert_eq!(parse_item_id(" 1"), None);
    assert_eq!(parse_item_id("1a"), None);
    assert_eq!(parse_item_id("--1"), None);
    assert_eq!(parse_item_id("١"), None);
}

#[test]
fn item_ids_agree_with_std() {
    for s in ["0", "-0", "+0", "12", "x", "2147483647", "-2147483648", "4294967296", "+-3"] {
        assert_eq!(parse_item_id(s), s.parse::<i32>().ok(), "{}", s);
    }
}

fn text_reply(step: HandlerStep) -> (u16, String) {
    match step {
        HandlerStep::Respond(Reply::Text { status, body }) => (status, body),
        _ => panic!("expected a text reply"),
    }
}

#[test]
fn malformed_form_is_an_empty_400() {
    match handle_event(HandlerEvent::FormRead(None)) {
        HandlerStep::Respond(Reply::Empty { status }) => assert_eq!(status, 400),
        _ => panic!("expected an empty reply"),
    }
}

#[test]
fn id_decides_lookup_or_400() {
    match handle_event(HandlerEvent::FormRead(Some("15".to_string()))) {
        HandlerStep::FetchAsset(id) => assert_eq!(id, 15),
        _ => panic!("expected a lookup"),
    }
    assert_eq!(
        text_reply(handle_event(HandlerEvent::FormRead(Some("abc".to_string())))),
        (400, "Invalid Number".to_string())
    );
}

#[test]
fn lookup_outcomes() {
    assert_eq!(
        text_reply(handle_event(HandlerEvent::AssetFetched(None))),
        (404, "Asset not found".to_string())
    );
    match handle_event(HandlerEvent::AssetFetched(Some(("m.obj".to_string(), "t.png".to_string())))) {
        HandlerStep::QueueRender { mesh, texture } => {
            assert_eq!(mesh, "m.obj");
            assert_eq!(texture, "t.png");
        }
        _ => panic!("expected a render"),
    }
}

#[test]
fn render_outcomes() {
    assert!(matches!(handle_event(HandlerEvent::RenderQueued(true)), HandlerStep::AwaitRender));
    assert_eq!(
        text_reply(handle_event(HandlerEvent::RenderQueued(false))),
        (500, "Server Shutting Down".to_string())
    );
    assert_eq!(
        text_reply(handle_event(HandlerEvent::RenderDone(Some("aGk=".to_string())))),
        (200, "aGk=".to_string())
    );
    assert_eq!(
        text_reply(handle_event(HandlerEvent::RenderDone(None))),
        (500, "Render Failed".to_string())
    );
}
