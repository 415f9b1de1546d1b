use supertonic_reader::processor::{
    get_text_mask, length_to_mask, max_length, noisy_latent_layout, UnicodeProcessor,
};

#[test]
fn masks_mark_real_positions() {
    assert_eq!(
        length_to_mask(&[2, 0, 3], None),
        vec![vec![true, true, false], vec![false, false, false], vec![true, true, true]]
    );
    assert_eq!(length_to_mask(&[5], Some(3)), vec![vec![true, true, true]]);
    assert_eq!(get_text_mask(&[1, 2]), vec![vec![true, false], vec![true, true]]);
    assert!(length_to_mask(&[], None).is_empty());
    assert_eq!(max_length(&[3, 9, 4]), 9);
    assert_eq!(max_length(&[]), 0);
}

#[test]
fn processor_maps_prepared_text_to_ids() {
    let indexer: Vec<i64> = (0..200).map(|i| i * 10).collect();
    let p = UnicodeProcessor::new(indexer);
    let texts = vec!["Hi".to_string(), "Yes!".to_string()];
    let langs = vec!["en".to_string(), "en".to_string()];
    let (ids, mask) = match p.call(&texts, &langs) {
        Ok(r) => r,
        Err(_) => panic!("unexpected error"),
    };
    // "<en>Hi.</en>" has 12 characters, "<en>Yes!</en>" 13.
    let first: Vec<i64> = "<en>Hi.</en>".chars().map(|c| c as i64 * 10).chain(std::iter::once(0)).collect();
    let second: Vec<i64> = "<en>Yes!</en>".chars().map(|c| c as i64 * 10).collect();
    assert_eq!(ids, vec![first, second]);
    assert_eq!(mask[0].iter().filter(|b| **b).count(), 12);
    assert_eq!(mask[1].len(), 13);
    assert!(!mask[0][12]);
}

#[test]
fn characters_beyond_the_indexer_get_minus_one() {
    let p = UnicodeProcessor::new(vec![7; 128]);
    let (ids, _) = match p.call(&["\u{e9}".to_string()], &["fr".to_string()]) {
        Ok(r) => r,
        Err(_) => panic!("unexpected error"),
    };
    // e + combining acute (U+0301) after decomposition.
    assert_eq!(ids[0], vec![7, 7, 7, 7, 7, -1, 7, 7, 7, 7, 7, 7]);
}

#[test]
fn processor_pairs_as_far_as_the_shorter_list_and_reports_bad_language() {
    let p = UnicodeProcessor::new(vec![1; 128]);
    let texts = vec!["a".to_string(), "b".to_string()];
    let (ids, mask) = match p.call(&texts, &["en".to_string()]) {
        Ok(r) => r,
        Err(_) => panic!("unexpected error"),
    };
    assert_eq!(ids.len(), 1);
    assert_eq!(mask.len(), 1);
    match p.call(&texts, &["en".to_string(), "xx".to_string()]) {
        Err(supertonic_reader::preprocess::PreprocessError::InvalidLanguage(l)) => assert_eq!(l, "xx"),
        Ok(_) => panic!("unexpected success"),
    }
}

#[test]
fn latent_layout_rounds_up_frames() {
    let layout = noisy_latent_layout(&[1000, 0, 3073], 3073, 512, 6, 24);
    assert_eq!(layout.chunk_size, 3072);
    assert_eq!(layout.latent_len, 2);
    assert_eq!(layout.latent_dim, 144);
    assert_eq!(layout.latent_lengths, vec![1, 0, 2]);
    assert_eq!(layout.mask, vec![vec![true, false], vec![false, false], vec![true, true]]);
}
