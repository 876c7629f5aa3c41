use review_search::lexical::{count_features, lexical_counts, lexical_dimension};
use review_search::vocabulary::{negative_word_list, positive_word_list};

#[test]
fn dimension_is_vocabulary_plus_four() {
    assert_eq!(positive_word_list().len(), 79);
    assert_eq!(negative_word_list().len(), 60);
    assert_eq!(lexical_dimension(), 143);
}

#[test]
fn vocabulary_order_is_fixed() {
    let p = positive_word_list();
    let n = negative_word_list();
    assert_eq!(p[0], "good");
    assert_eq!(p[1], "great");
    assert_eq!(p[36], "first-class");
    assert_eq!(p[61], "recommend");
    assert_eq!(p[76], "recommend");
    assert_eq!(p[78], "purchase");
    assert_eq!(n[0], "bad");
    assert_eq!(n[59], "refund");
}

#[test]
fn counts_have_one_entry_per_vocabulary_word() {
    for text in ["", "   ", "great", "nothing known here", "BAD bad Bad"] {
        assert_eq!(lexical_counts(text).term_counts.len(), 139, "{:?}", text);
    }
}

#[test]
fn empty_text_counts_nothing() {
    for text in ["", " \t\n "] {
        let c = lexical_counts(text);
        assert_eq!(c.token_count, 0);
        assert_eq!(c.positive_count, 0);
        assert_eq!(c.negative_count, 0);
        assert!(c.term_counts.iter().all(|n| *n == 0));
    }
}

#[test]
fn counts_of_a_review() {
    let c = lexical_counts("Great battery, great price but slow and bad great");
    assert_eq!(c.token_count, 9);
    assert_eq!(c.term_counts[1], 3);
    assert_eq!(c.term_counts[79], 1);
    assert_eq!(c.term_counts[79 + 39], 1);
    assert_eq!(c.positive_count, 3);
    assert_eq!(c.negative_count, 2);
    assert_eq!(c.term_counts.iter().sum::<usize>(), 5);
}

#[test]
fn text_is_lowered_before_counting() {
    let c = lexical_counts("EXCELLENT Excellent excellent");
    assert_eq!(c.term_counts[2], 3);
    assert_eq!(c.positive_count, 3);
    let raw = count_features("EXCELLENT Excellent excellent");
    assert_eq!(raw.term_counts[2], 1);
    assert_eq!(raw.positive_count, 1);
    assert_eq!(raw.token_count, 3);
}

#[test]
fn tokens_match_whole_words_only() {
    let c = lexical_counts("goodness good, good");
    assert_eq!(c.term_counts[0], 1);
    assert_eq!(c.positive_count, 1);
    assert_eq!(c.token_count, 3);
}

#[test]
fn a_word_listed_twice_fills_both_components() {
    let c = lexical_counts("recommend");
    assert_eq!(c.term_counts[61], 1);
    assert_eq!(c.term_counts[76], 1);
    assert_eq!(c.positive_count, 1);
}

#[test]
fn counting_is_deterministic() {
    let a = lexical_counts("fast and reliable, not cheap");
    let b = lexical_counts("fast and reliable, not cheap");
    assert_eq!(a.term_counts, b.term_counts);
    assert_eq!(a.token_count, b.token_count);
    assert_eq!(a.positive_count, b.positive_count);
    assert_eq!(a.negative_count, b.negative_count);
}
