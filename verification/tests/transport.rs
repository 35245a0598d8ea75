use mini_curl::error::Error;
use mini_curl::parser::{Destination, IpAddress};
use mini_curl::transport::{Fallback, Outcome, Step};

fn destination(last: u8) -> Destination {
    Destination { ip: IpAddress::V4([10, 0, 0, last]), port: 443 }
}

#[test]
fn destinations_are_tried_in_order_until_one_answers() {
    let mut run = Fallback::new(vec![destination(1), destination(2), destination(3)]);
    assert_eq!(run.step(None), Step::Try(destination(1)));
    assert_eq!(run.step(Some(Outcome::Failed("refused".to_string()))), Step::Try(destination(2)));
    assert_eq!(run.step(Some(Outcome::Received(b"reply".to_vec()))), Step::Done(Ok(b"reply".to_vec())));
}

#[test]
fn the_first_destination_that_answers_ends_the_run() {
    let mut run = Fallback::new(vec![destination(1), destination(2)]);
    assert_eq!(run.step(None), Step::Try(destination(1)));
    assert_eq!(run.step(Some(Outcome::Received(Vec::new()))), Step::Done(Ok(Vec::new())));
}

#[test]
fn the_error_comes_only_after_every_destination_and_is_the_last_one() {
    let mut run = Fallback::new(vec![destination(1), destination(2), destination(3)]);
    assert_eq!(run.step(None), Step::Try(destination(1)));
    assert_eq!(run.step(Some(Outcome::Failed("first".to_string()))), Step::Try(destination(2)));
    assert_eq!(run.step(Some(Outcome::Failed("second".to_string()))), Step::Try(destination(3)));
    assert_eq!(
        run.step(Some(Outcome::Failed("third".to_string()))),
        Step::Done(Err(Error::Transport("third".to_string())))
    );
}

#[test]
fn without_destinations_there_is_nothing_to_try() {
    let mut run = Fallback::new(Vec::new());
    assert_eq!(
        run.step(None),
        Step::Done(Err(Error::Transport("no destination to try".to_string())))
    );
}

#[test]
fn a_single_destination_that_fails() {
    let mut run = Fallback::new(vec![destination(9)]);
    assert_eq!(run.step(None), Step::Try(destination(9)));
    assert_eq!(
        run.step(Some(Outcome::Failed("handshake".to_string()))),
        Step::Done(Err(Error::Transport("handshake".to_string())))
    );
}
