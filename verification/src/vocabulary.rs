//! The fixed vocabulary of the lexical extractor.
//!
//! The vocabulary is part of the format of stored vectors: component `i` of
//! a lexical vector belongs to word `i` of the vocabulary. Changing a list
//! changes what every stored vector means.

use vstd::prelude::*;

verus! {

/// Words that speak for a product, in lower case. One word stands twice and
/// so owns two components.
pub open spec fn positive_words() -> Seq<Seq<char>> {
    seq![
        "good"@, "great"@, "excellent"@, "amazing"@, "wonderful"@,
        "fantastic"@, "love"@, "perfect"@, "best"@, "awesome"@,
        "outstanding"@, "superb"@, "brilliant"@, "magnificent"@, "exceptional"@,
        "marvelous"@, "incredible"@, "remarkable"@, "impressive"@, "stunning"@,
        "fabulous"@, "terrific"@, "gorgeous"@, "beautiful"@, "lovely"@,
        "nice"@, "pleasant"@, "enjoyable"@, "delightful"@, "charming"@,
        "attractive"@, "appealing"@, "desirable"@, "superior"@, "premium"@,
        "top"@, "first-class"@, "high-quality"@, "fine"@, "phenomenal"@,
        "friendly"@, "helpful"@, "patient"@, "knowledgeable"@, "attentive"@,
        "cool"@, "affordable"@, "comfortable"@, "easy"@, "fast"@,
        "durable"@, "portable"@, "compact"@, "smooth"@, "soft"@,
        "responsive"@, "intuitive"@, "simple"@, "modern"@, "sleek"@,
        "elegant"@, "recommend"@, "satisfied"@, "happy"@, "pleased"@,
        "worth"@, "enjoy"@, "appreciate"@, "praise"@, "reliable"@,
        "stable"@, "clear"@, "bright"@, "quiet"@, "quality"@,
        "value"@, "recommend"@, "buy"@, "purchase"@,
    ]
}

/// Words that speak against a product, in lower case.
pub open spec fn negative_words() -> Seq<Seq<char>> {
    seq![
        "bad"@, "poor"@, "terrible"@, "awful"@, "hate"@,
        "worst"@, "horrible"@, "disappointing"@, "useless"@, "pathetic"@,
        "disgusting"@, "dreadful"@, "appalling"@, "shocking"@, "disastrous"@,
        "catastrophic"@, "horrendous"@, "atrocious"@, "abysmal"@, "deplorable"@,
        "miserable"@, "inferior"@, "substandard"@, "defective"@, "faulty"@,
        "broken"@, "worthless"@, "garbage"@, "trash"@, "junk"@,
        "rubbish"@, "cheap"@, "flimsy"@, "fragile"@, "unreliable"@,
        "unstable"@, "problematic"@, "suspicious"@, "difficult"@, "slow"@,
        "expensive"@, "heavy"@, "rough"@, "hard"@, "laggy"@,
        "confusing"@, "complex"@, "outdated"@, "bulky"@, "disappointed"@,
        "regret"@, "criticize"@, "complain"@, "blame"@, "blurry"@,
        "dark"@, "loud"@, "uncomfortable"@, "return"@, "refund"@,
    ]
}

/// The vocabulary: the positive words, then the negative ones.
pub open spec fn vocabulary() -> Seq<Seq<char>> {
    positive_words() + negative_words()
}

/// The positive words.
pub fn positive_word_list() -> (v: Vec<&'static str>)
    ensures
        v@.len() == positive_words().len(),
        forall|i: int| 0 <= i < v@.len() ==> (#[trigger] v@[i])@ == positive_words()[i],
{
    vec![
        "good", "great", "excellent", "amazing", "wonderful",
        "fantastic", "love", "perfect", "best", "awesome",
        "outstanding", "superb", "brilliant", "magnificent", "exceptional",
        "marvelous", "incredible", "remarkable", "impressive", "stunning",
        "fabulous", "terrific", "gorgeous", "beautiful", "lovely",
        "nice", "pleasant", "enjoyable", "delightful", "charming",
        "attractive", "appealing", "desirable", "superior", "premium",
        "top", "first-class", "high-quality", "fine", "phenomenal",
        "friendly", "helpful", "patient", "knowledgeable", "attentive",
        "cool", "affordable", "comfortable", "easy", "fast",
        "durable", "portable", "compact", "smooth", "soft",
        "responsive", "intuitive", "simple", "modern", "sleek",
        "elegant", "recommend", "satisfied", "happy", "pleased",
        "worth", "enjoy", "appreciate", "praise", "reliable",
        "stable", "clear", "bright", "quiet", "quality",
        "value", "recommend", "buy", "purchase",
    ]
}

/// The negative words.
pub fn negative_word_list() -> (v: Vec<&'static str>)
    ensures
        v@.len() == negative_words().len(),
        forall|i: int| 0 <= i < v@.len() ==> (#[trigger] v@[i])@ == negative_words()[i],
{
    vec![
        "bad", "poor", "terrible", "awful", "hate",
        "worst", "horrible", "disappointing", "useless", "pathetic",
        "disgusting", "dreadful", "appalling", "shocking", "disastrous",
        "catastrophic", "horrendous", "atrocious", "abysmal", "deplorable",
        "miserable", "inferior", "substandard", "defective", "faulty",
        "broken", "worthless", "garbage", "trash", "junk",
        "rubbish", "cheap", "flimsy", "fragile", "unreliable",
        "unstable", "problematic", "suspicious", "difficult", "slow",
        "expensive", "heavy", "rough", "hard", "laggy",
        "confusing", "complex", "outdated", "bulky", "disappointed",
        "regret", "criticize", "complain", "blame", "blurry",
        "dark", "loud", "uncomfortable", "return", "refund",
    ]
}

} // verus!
