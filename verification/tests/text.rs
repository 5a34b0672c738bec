//! Texts with a cap.

use o89_core::body::Malformed;
use o89_core::text::{Text, TooLong};

#[test]
fn a_text_holds_what_it_was_given_up_to_its_cap() {
    let text = Text::<8>::new("étable").expect("seven bytes fit eight");
    assert_eq!(text.as_str(), "étable");
    assert_eq!(text.len(), 7);
    assert!(!text.is_empty());
    assert!(Text::<8>::empty().is_empty());
    assert_eq!(Text::<8>::new("exactly8").map(|t| t.len()), Ok(8));
}

#[test]
fn a_text_past_its_cap_is_refused_not_truncated() {
    assert_eq!(Text::<8>::new("nine char"), Err(TooLong { len: 9, cap: 8 }));
}

#[test]
fn a_text_survives_the_round_trip_and_refuses_a_long_length_or_bad_utf8() {
    let text = Text::<4>::new("ab").expect("fits");
    let mut bytes = [0u8; 5];
    text.put(&mut bytes, 0);
    assert_eq!(bytes, [2, b'a', b'b', 0, 0]);
    assert_eq!(Text::<4>::take(&bytes, 0), Ok(text));
    let long = [5, b'a', b'b', 0, 0];
    assert_eq!(
        Text::<4>::take(&long, 0),
        Err(Malformed { at: 0 })
    );
    let bad = [2, 0xFF, b'b', 0, 0];
    assert_eq!(
        Text::<4>::take(&bad, 0),
        Err(Malformed { at: 1 })
    );
    let short = [1, b'a'];
    assert_eq!(
        Text::<4>::take(&short, 0),
        Err(Malformed { at: 1 })
    );
}
