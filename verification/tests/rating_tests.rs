use net_promoter_score::classification::Classification;
use net_promoter_score::rating::{NetPromoterScoreError, Rating, MAX_RATING};
use net_promoter_score::response::SurveyResponse;
use std::cmp::Ordering;
use std::convert::TryFrom;

#[test]
fn every_raw_value_is_a_rating_exactly_up_to_ten() {
    for raw in 0..=u8::MAX {
        match Rating::try_from(raw) {
            Ok(rating) => {
                assert!(raw <= 10);
                assert_eq!(rating.value(), raw);
                assert_eq!(*rating, raw);
            }
            Err(error) => {
                assert!(raw > 10);
                assert_eq!(error, NetPromoterScoreError::InvalidRating(raw));
            }
        }
    }
}

#[test]
fn the_scale_ends_at_ten() {
    assert_eq!(MAX_RATING, 10);
    assert!(Rating::try_from(0).is_ok());
    assert!(Rating::try_from(10).is_ok());
    assert_eq!(
        Rating::try_from(11),
        Err(NetPromoterScoreError::InvalidRating(11))
    );
    assert_eq!(
        Rating::try_from(255),
        Err(NetPromoterScoreError::InvalidRating(255))
    );
}

#[test]
fn every_rating_falls_into_its_segment() {
    for raw in 0..=10u8 {
        let rating = Rating::try_from(raw).unwrap();
        let expected = if raw <= 6 {
            Classification::Detractor
        } else if raw <= 8 {
            Classification::Passive
        } else {
            Classification::Promoter
        };
        assert_eq!(Classification::classify(&rating), expected);
        assert_eq!(Classification::from(&rating), expected);
        assert_eq!(Classification::from(rating), expected);
    }
}

#[test]
fn segment_borders_lie_at_six_and_eight() {
    let class_of = |raw: u8| Classification::classify(&Rating::try_from(raw).unwrap());
    assert_eq!(class_of(0), Classification::Detractor);
    assert_eq!(class_of(6), Classification::Detractor);
    assert_eq!(class_of(7), Classification::Passive);
    assert_eq!(class_of(8), Classification::Passive);
    assert_eq!(class_of(9), Classification::Promoter);
    assert_eq!(class_of(10), Classification::Promoter);
}

#[test]
fn ratings_render_as_their_number() {
    assert_eq!(Rating::try_from(0).unwrap().to_string(), "0");
    assert_eq!(Rating::try_from(7).unwrap().to_string(), "7");
    assert_eq!(Rating::try_from(9).unwrap().to_string(), "9");
    assert_eq!(Rating::try_from(10).unwrap().to_string(), "10");
}

#[test]
fn errors_render_with_the_refused_value() {
    assert_eq!(
        NetPromoterScoreError::InvalidRating(11).to_string(),
        "Invalid rating value: 11"
    );
    assert_eq!(
        NetPromoterScoreError::InvalidRating(99).to_string(),
        "Invalid rating value: 99"
    );
    assert_eq!(
        NetPromoterScoreError::InvalidRating(100).to_string(),
        "Invalid rating value: 100"
    );
    assert_eq!(
        NetPromoterScoreError::InvalidRating(205).to_string(),
        "Invalid rating value: 205"
    );
    assert_eq!(
        NetPromoterScoreError::InvalidRating(255).to_string(),
        "Invalid rating value: 255"
    );
}

#[test]
fn ratings_compare_by_their_number() {
    for a in 0..=10u8 {
        for b in 0..=10u8 {
            let left = Rating::try_from(a).unwrap();
            let right = Rating::try_from(b).unwrap();
            assert_eq!(left == right, a == b);
            assert_eq!(left < right, a < b);
            assert_eq!(left.partial_cmp(&right), Some(a.cmp(&b)));
            assert_eq!(left.cmp(&right), a.cmp(&b));
        }
    }
}

#[test]
fn segments_compare_by_their_level() {
    let all = [
        Classification::Detractor,
        Classification::Passive,
        Classification::Promoter,
    ];
    for (i, left) in all.iter().enumerate() {
        for (j, right) in all.iter().enumerate() {
            assert_eq!(left.partial_cmp(right), Some(i.cmp(&j)));
            assert_eq!(left.cmp(right), i.cmp(&j));
            assert_eq!(left == right, i == j);
        }
    }
}

#[test]
fn responses_compare_by_id_then_rating() {
    let response = |id: u32, raw: u8| SurveyResponse::new(id, raw).unwrap();
    assert_eq!(
        response(1, 9).partial_cmp(&response(2, 0)),
        Some(Ordering::Less)
    );
    assert_eq!(
        response(2, 0).partial_cmp(&response(1, 9)),
        Some(Ordering::Greater)
    );
    assert_eq!(
        response(3, 4).partial_cmp(&response(3, 5)),
        Some(Ordering::Less)
    );
    assert_eq!(
        response(3, 5).partial_cmp(&response(3, 5)),
        Some(Ordering::Equal)
    );
    assert_eq!(response(3, 5).cmp(&response(3, 4)), Ordering::Greater);
    assert!(response(3, 5) == response(3, 5));
    assert!(response(3, 5) != response(3, 6));
    assert!(response(3, 5) != response(4, 5));
}

#[test]
fn a_response_keeps_what_it_was_given() {
    let response = SurveyResponse::new("anna", 10).unwrap();
    assert_eq!(*response.respondent_id(), "anna");
    assert_eq!(response.score().value(), 10);
}

#[test]
fn a_response_refuses_a_rating_above_the_scale() {
    assert_eq!(
        SurveyResponse::new("anna", 11),
        Err(NetPromoterScoreError::InvalidRating(11))
    );
}
