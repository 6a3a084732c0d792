use launch_deck::surface::{elapsed_ms, media_type, PingOutcome};

#[test]
fn the_media_type_is_lower_cased_and_absent_rather_than_empty() {
    assert_eq!(media_type(" Text/HTML ").as_deref(), Some("text/html"));
    assert_eq!(media_type(""), None);
    assert_eq!(media_type("   "), None);
}

#[test]
fn elapsed_time_saturates() {
    assert_eq!(elapsed_ms(12), 12);
    assert_eq!(elapsed_ms(u128::from(u32::MAX) + 5), u32::MAX);
}

#[test]
fn an_answer_of_any_status_is_a_response() {
    let o = PingOutcome::Responded { status: 503, ms: 40, content_type: media_type("application/json") };
    match o {
        PingOutcome::Responded { status, content_type, .. } => {
            assert_eq!(status, 503);
            assert_eq!(content_type.as_deref(), Some("application/json"));
        }
        PingOutcome::Failed(_) => panic!("a 503 is an answer"),
    }
}
