use net_promoter_score::prelude::{Classification, NetPromoterScoreError, Survey, SurveyResponse};

fn snapshot<T: Ord + Clone>(survey: &Survey<T>) -> Vec<(T, u8)> {
    survey
        .responses()
        .iter()
        .map(|response| (response.respondent_id().clone(), response.score().value()))
        .collect()
}

#[test]
fn a_batch_records_the_valid_pairs_and_reports_the_others() {
    let mut survey = Survey::new();
    let result = survey.add_multiple_responses(vec![("id1", 5), ("id2", 99), ("id3", 7)]);
    assert_eq!(result, Err(vec![NetPromoterScoreError::InvalidRating(99)]));
    assert_eq!(survey.len(), 2);
    assert_eq!(snapshot(&survey), vec![("id1", 5), ("id3", 7)]);
}

#[test]
fn a_batch_reports_its_errors_in_input_order() {
    let mut survey = Survey::new();
    let result = survey.add_multiple_responses(vec![
        (4, 200),
        (1, 10),
        (3, 11),
        (2, 0),
        (5, 200),
        (6, 12),
    ]);
    assert_eq!(
        result,
        Err(vec![
            NetPromoterScoreError::InvalidRating(200),
            NetPromoterScoreError::InvalidRating(11),
            NetPromoterScoreError::InvalidRating(200),
            NetPromoterScoreError::InvalidRating(12),
        ])
    );
    assert_eq!(snapshot(&survey), vec![(1, 10), (2, 0)]);
    assert_eq!(survey.score(), 0);
}

#[test]
fn an_empty_batch_changes_nothing() {
    let mut survey = Survey::new();
    survey.add_response(1, 10).unwrap();
    assert_eq!(survey.add_multiple_responses(Vec::new()), Ok(()));
    assert_eq!(snapshot(&survey), vec![(1, 10)]);
    assert_eq!(survey.score(), 100);
}

#[test]
fn a_batch_without_valid_pairs_changes_nothing() {
    let mut survey = Survey::new();
    survey.add_response(1, 10).unwrap();
    assert_eq!(survey.score(), 100);
    let result = survey.add_multiple_responses(vec![(1, 11), (2, 12)]);
    assert_eq!(
        result,
        Err(vec![
            NetPromoterScoreError::InvalidRating(11),
            NetPromoterScoreError::InvalidRating(12),
        ])
    );
    assert_eq!(snapshot(&survey), vec![(1, 10)]);
    assert_eq!(survey.score(), 100);
}

#[test]
fn within_a_batch_the_last_answer_of_a_respondent_counts() {
    let mut survey = Survey::new();
    survey
        .add_multiple_responses(vec![("x", 3), ("y", 4), ("x", 9), ("x", 30), ("y", 5)])
        .unwrap_err();
    assert_eq!(snapshot(&survey), vec![("x", 9), ("y", 5)]);
}

#[test]
fn a_survey_from_valid_pairs_holds_them_all() {
    let result: Result<Survey<u32>, Vec<NetPromoterScoreError>> =
        Survey::from_responses(vec![(3, 9), (1, 8), (2, 6)]);
    let mut survey = result.unwrap();
    assert_eq!(snapshot(&survey), vec![(1, 8), (2, 6), (3, 9)]);
    assert_eq!(survey.score(), 0);
}

#[test]
fn a_survey_from_no_pairs_is_empty() {
    let result: Result<Survey<u32>, Vec<NetPromoterScoreError>> = Survey::from_responses(vec![]);
    let mut survey = result.unwrap();
    assert!(survey.is_empty());
    assert_eq!(survey.score(), 0);
}

#[derive(Debug, PartialEq)]
struct Report(String);

impl From<NetPromoterScoreError> for Report {
    fn from(error: NetPromoterScoreError) -> Self {
        Report(error.to_string())
    }
}

#[test]
fn a_survey_from_pairs_with_errors_gives_only_the_errors() {
    let result: Result<Survey<u32>, Vec<Report>> =
        Survey::from_responses(vec![(1, 10), (2, 42), (3, 9), (4, 11)]);
    match result {
        Ok(_) => panic!("two of the ratings lie above the scale"),
        Err(errors) => assert_eq!(
            errors,
            vec![
                Report(String::from("Invalid rating value: 42")),
                Report(String::from("Invalid rating value: 11")),
            ]
        ),
    }
}

#[test]
fn a_stream_is_collected_without_its_errors() {
    let survey: Survey<&str> = Survey::from_iter(vec![
        SurveyResponse::new("c", 10),
        SurveyResponse::new("a", 11),
        SurveyResponse::new("b", 0),
        Err(NetPromoterScoreError::InvalidRating(200)),
        SurveyResponse::new("c", 7),
    ]);
    assert_eq!(snapshot(&survey), vec![("b", 0), ("c", 7)]);
}

#[test]
fn a_stream_of_errors_gives_an_empty_survey() {
    let mut survey: Survey<u8> = Survey::from_iter(vec![
        SurveyResponse::new(1, 11),
        Err(NetPromoterScoreError::InvalidRating(12)),
    ]);
    assert!(survey.is_empty());
    assert_eq!(survey.score(), 0);
}

#[test]
fn extending_puts_responses_in_by_their_ids() {
    let mut survey = Survey::new();
    survey.add_multiple_responses(vec![(2, 2), (4, 4)]).unwrap();
    survey.extend(vec![
        SurveyResponse::new(3, 10).unwrap(),
        SurveyResponse::new(1, 9).unwrap(),
        SurveyResponse::new(4, 0).unwrap(),
    ]);
    assert_eq!(snapshot(&survey), vec![(1, 9), (2, 2), (3, 10), (4, 0)]);
    survey.extend(Vec::new());
    assert_eq!(snapshot(&survey), vec![(1, 9), (2, 2), (3, 10), (4, 0)]);
}

#[test]
fn the_responses_can_be_taken_out() {
    let mut survey = Survey::new();
    survey
        .add_multiple_responses(vec![("b", 1), ("a", 2)])
        .unwrap();
    let all = survey.into_responses();
    assert_eq!(
        all,
        vec![
            SurveyResponse::new("a", 2).unwrap(),
            SurveyResponse::new("b", 1).unwrap(),
        ]
    );
}

#[test]
fn bulk_answers_take_one_id_for_each_answer() {
    let mut survey = Survey::new();
    let mut next = 100;
    let ids = || {
        next += 10;
        next
    };
    survey
        .add_bulk_responses(ids, &[(9, 2), (3, 0), (7, 1), (0, 3)])
        .unwrap();
    assert_eq!(
        snapshot(&survey),
        vec![(110, 9), (120, 9), (130, 7), (140, 0), (150, 0), (160, 0)]
    );
    assert_eq!(next, 160);
    assert_eq!(survey.score(), -17);
}

#[test]
fn bulk_answers_above_the_scale_use_up_their_ids() {
    let mut survey = Survey::new();
    let mut taken = 0;
    let ids = || {
        taken += 1;
        taken
    };
    let result = survey.add_bulk_responses(ids, &[(10, 1), (11, 3), (9, 2), (200, 2), (77, 0)]);
    assert_eq!(
        result,
        Err(vec![
            NetPromoterScoreError::InvalidRating(11),
            NetPromoterScoreError::InvalidRating(11),
            NetPromoterScoreError::InvalidRating(11),
            NetPromoterScoreError::InvalidRating(200),
            NetPromoterScoreError::InvalidRating(200),
        ])
    );
    assert_eq!(taken, 8);
    assert_eq!(snapshot(&survey), vec![(1, 10), (5, 9), (6, 9)]);
    assert_eq!(survey.score(), 100);
}

#[test]
fn bulk_answers_of_one_id_replace_each_other() {
    let mut survey = Survey::new();
    survey
        .add_bulk_responses(|| "same", &[(1, 3), (10, 2)])
        .unwrap();
    assert_eq!(snapshot(&survey), vec![("same", 10)]);
}

#[test]
fn no_bulk_answers_change_nothing() {
    let mut survey: Survey<i32> = Survey::new();
    survey.add_response(7, 7).unwrap();
    assert_eq!(survey.add_bulk_responses(|| 1, &[]), Ok(()));
    assert_eq!(survey.add_bulk_responses(|| 1, &[(5, 0), (50, 0)]), Ok(()));
    assert_eq!(survey.add_bulk_responses_auto_id(&[]), Ok(()));
    assert_eq!(survey.add_bulk_responses_auto_id(&[(50, 0)]), Ok(()));
    assert_eq!(snapshot(&survey), vec![(7, 7)]);
}

#[test]
fn own_ids_count_up_from_one_across_the_pairs() {
    let mut survey = Survey::new();
    survey
        .add_bulk_responses_auto_id(&[(1, 2), (9, 1), (5, 3)])
        .unwrap();
    assert_eq!(
        snapshot(&survey),
        vec![(1, 1), (2, 1), (3, 9), (4, 5), (5, 5), (6, 5)]
    );
}

#[test]
fn own_ids_start_again_at_one_in_every_call() {
    let mut survey = Survey::new();
    survey.add_bulk_responses_auto_id(&[(10, 3)]).unwrap();
    assert_eq!(snapshot(&survey), vec![(1, 10), (2, 10), (3, 10)]);
    assert_eq!(survey.score(), 100);
    survey.add_bulk_responses_auto_id(&[(0, 2)]).unwrap();
    assert_eq!(snapshot(&survey), vec![(1, 0), (2, 0), (3, 10)]);
    assert_eq!(survey.score(), -33);
    survey.add_bulk_responses_auto_id(&[(7, 4)]).unwrap();
    assert_eq!(snapshot(&survey), vec![(1, 7), (2, 7), (3, 7), (4, 7)]);
}

#[test]
fn own_ids_are_used_up_by_ratings_above_the_scale() {
    let mut survey = Survey::new();
    let result = survey.add_bulk_responses_auto_id(&[(12, 2), (8, 1)]);
    assert_eq!(
        result,
        Err(vec![
            NetPromoterScoreError::InvalidRating(12),
            NetPromoterScoreError::InvalidRating(12),
        ])
    );
    assert_eq!(snapshot(&survey), vec![(3, 8)]);
    assert_eq!(survey.segment(Classification::Passive).len(), 1);
}

#[test]
fn duplicate_rating_groups_score_15() {
    let mut survey = Survey::new();
    survey
        .add_bulk_responses_auto_id(&[
            (1, 2),
            (4, 1),
            (5, 1),
            (5, 1),
            (7, 8),
            (8, 10),
            (10, 5),
            (10, 5),
        ])
        .unwrap();
    assert_eq!(survey.len(), 33);
    assert_eq!(survey.segment(Classification::Promoter).len(), 10);
    assert_eq!(survey.segment(Classification::Detractor).len(), 5);
    assert_eq!(survey.score(), 15);
}
