use laybacker::matcher::match_pairs;

#[test]
fn one_audio_goes_with_every_video() {
    assert_eq!(match_pairs(3, 1, &vec![(2, 0), (0, 0), (1, 0)]), vec![(0, 0), (1, 0), (2, 0)]);
}

#[test]
fn each_audio_takes_its_best_ranked_video() {
    // Ranked best first: audio 1 likes video 0 most, audio 0 likes video 0 next.
    let ranked = vec![(0, 1), (0, 0), (1, 0), (1, 1)];
    assert_eq!(match_pairs(2, 2, &ranked), vec![(0, 1), (0, 0)]);
}

#[test]
fn nothing_to_pair() {
    assert!(match_pairs(0, 3, &vec![]).is_empty());
    assert!(match_pairs(2, 0, &vec![]).is_empty());
}
