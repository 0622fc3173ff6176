use poolstats::decimal::format_decimal;
use poolstats::rpc::{handle_response, EpochInfo, LayerInfo, Number, RpcError, RpcHandler};
use poolstats::window::{
    compute_window, read_window, WindowView, LAYERS_PER_EPOCH, ROUND_OPEN_OFFSET,
};

fn epoch(number: i64) -> Result<EpochInfo, RpcError> {
    Ok(EpochInfo { epochnum: Number { number } })
}

fn layer(number: i64) -> Result<LayerInfo, RpcError> {
    Ok(LayerInfo { layernum: Number { number } })
}

fn failure(message: &str) -> RpcError {
    RpcError { message: message.to_string() }
}

#[test]
fn deployment_constants() {
    assert_eq!(LAYERS_PER_EPOCH, 4032);
    assert_eq!(ROUND_OPEN_OFFSET, 2880);
}

#[test]
fn boundary_is_crossed_at_the_opening_layer() {
    let window = compute_window(5, 5 * 4032 + 2880);
    assert!(window.crossed());
    assert_eq!(
        window,
        WindowView {
            current_round: "4".to_string(),
            current_epoch_for_activation: 4,
            next_round: Some("5".to_string()),
            next_epoch: Some(5),
        }
    );
}

#[test]
fn boundary_is_not_crossed_one_layer_before() {
    let window = compute_window(5, 5 * 4032 + 2879);
    assert!(!window.crossed());
    assert_eq!(
        window,
        WindowView {
            current_round: "4".to_string(),
            current_epoch_for_activation: 4,
            next_round: None,
            next_epoch: None,
        }
    );
}

#[test]
fn window_of_the_first_epoch_names_round_minus_one() {
    let window = compute_window(0, 0);
    assert_eq!(window.current_round, "-1");
    assert_eq!(window.current_epoch_for_activation, -1);
    assert_eq!(window.next_round, None);
    let later = compute_window(0, 2880);
    assert_eq!(later.next_round, Some("0".to_string()));
    assert_eq!(later.next_epoch, Some(0));
}

#[test]
fn window_at_the_largest_epoch_does_not_overflow() {
    let window = compute_window(i64::MAX, i64::MAX);
    assert_eq!(window.current_round, "9223372036854775806");
    assert_eq!(window.current_epoch_for_activation, i64::MAX - 1);
    assert!(!window.crossed());
    let low = compute_window(i64::MIN + 1, i64::MIN);
    assert_eq!(low.current_round, "-9223372036854775808");
    assert!(low.crossed());
    assert_eq!(low.next_round, Some("-9223372036854775807".to_string()));
}

#[test]
fn decimal_labels() {
    assert_eq!(format_decimal(0), "0");
    assert_eq!(format_decimal(7), "7");
    assert_eq!(format_decimal(10), "10");
    assert_eq!(format_decimal(-1), "-1");
    assert_eq!(format_decimal(1234567890), "1234567890");
    assert_eq!(format_decimal(-4032), "-4032");
    assert_eq!(format_decimal(i64::MAX), "9223372036854775807");
    assert_eq!(format_decimal(i64::MIN), "-9223372036854775808");
}

#[test]
fn decimal_labels_agree_with_the_standard_formatting() {
    let mut n: i64 = -1500;
    while n <= 1500 {
        assert_eq!(format_decimal(n), n.to_string());
        n += 1;
    }
}

#[test]
fn a_clock_reading_gives_the_window() {
    let reading = read_window(epoch(5), layer(5 * 4032 + 2880));
    assert_eq!(reading, Ok(compute_window(5, 5 * 4032 + 2880)));
}

#[test]
fn a_failed_epoch_question_fails_the_reading() {
    let reading = read_window(Err(failure("no route")), layer(1));
    assert_eq!(reading, Err(failure("no route")));
    let both = read_window(Err(failure("epoch")), Err(failure("layer")));
    assert_eq!(both, Err(failure("epoch")));
}

#[test]
fn a_failed_layer_question_fails_the_reading() {
    let reading = read_window(epoch(5), Err(failure("timed out")));
    assert_eq!(reading, Err(failure("timed out")));
}

#[test]
fn an_epoch_without_predecessor_fails_the_reading() {
    let reading = read_window(epoch(i64::MIN), layer(0));
    assert!(reading.is_err());
}

#[test]
fn a_good_answer_is_passed_on() {
    let answer: Result<Result<EpochInfo, String>, String> =
        Ok(Ok(EpochInfo { epochnum: Number { number: 9 } }));
    assert_eq!(handle_response(answer), Ok(EpochInfo { epochnum: Number { number: 9 } }));
}

#[test]
fn an_unreadable_answer_keeps_its_message() {
    let answer: Result<Result<LayerInfo, String>, String> = Ok(Err("missing field".to_string()));
    assert_eq!(handle_response(answer), Err(failure("missing field")));
}

#[test]
fn an_unreached_node_keeps_its_message() {
    let answer: Result<Result<LayerInfo, String>, String> = Err("connection refused".to_string());
    assert_eq!(handle_response(answer), Err(failure("connection refused")));
}

#[test]
fn the_two_questions_have_their_addresses() {
    let handler = RpcHandler::new("127.0.0.1:9092".to_string());
    assert_eq!(handler.endpoint, "127.0.0.1:9092");
    assert_eq!(handler.epoch_url(), "http://127.0.0.1:9092/v1/mesh/currentepoch");
    assert_eq!(handler.layer_url(), "http://127.0.0.1:9092/v1/mesh/currentlayer");
}
