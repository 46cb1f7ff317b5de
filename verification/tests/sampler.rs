use subquote::builder::{
    assemble, build_branch, build_dictionary, choose_start, generate_quote, start_at,
    start_positions, successor_at, successor_count, Quote,
};
use subquote::cache::{load_dict, Entries, Entry};
use subquote::dictionary::TransitionDictionary;
use subquote::error::QuoteError;
use subquote::io::Unit;
use subquote::random::{FixedSequence, ThreadSource, UniformSource};
use subquote::text::close;
use subquote::tokenizer::LineFilter;

fn words(items: &[&str]) -> Vec<String> {
    items.iter().map(|s| s.to_string()).collect()
}

fn entry(key: &str, pairs: &[&str]) -> Entry {
    Entry::new(key.to_string(), words(pairs))
}

fn animals() -> TransitionDictionary {
    let filter = LineFilter::new().expect("the line patterns compile");
    build_dictionary(&filter, "The cat sat. The dog ran", Unit::Word)
}

fn chain(tokens: &[&str]) -> Quote {
    let mut quote = Quote::Nil;
    for token in tokens.iter().rev() {
        quote = Quote::Node(token.to_string(), Box::new(quote));
    }
    quote
}

#[test]
fn fixed_draws_give_a_fixed_quote() {
    let dict = animals();
    let mut rng = FixedSequence::new(vec![0, 1, 0]);
    assert_eq!(generate_quote(&dict, 5, &mut rng), Ok("The dog ran.".to_string()));
    let mut rng = FixedSequence::new(vec![0, 0, 0]);
    assert_eq!(generate_quote(&dict, 5, &mut rng), Ok("The cat sat.".to_string()));
}

#[test]
fn quote_length_bounds_the_walk() {
    let dict = animals();
    let mut rng = FixedSequence::new(vec![0, 1, 0]);
    assert_eq!(generate_quote(&dict, 1, &mut rng), Ok("The dog.".to_string()));
    let mut rng = FixedSequence::new(vec![0, 1, 0]);
    assert_eq!(generate_quote(&dict, 2, &mut rng), Ok("The dog ran.".to_string()));
    let looping = load_dict(&Entries { entries: vec![entry("A", &["A"])] });
    let mut rng = FixedSequence::new(vec![]);
    assert_eq!(generate_quote(&looping, 3, &mut rng), Ok("A A A A.".to_string()));
}

#[test]
fn zero_length_quote_is_the_start_token() {
    let dict = load_dict(&Entries { entries: vec![entry("Hi.", &["there"])] });
    let mut rng = FixedSequence::new(vec![0]);
    assert_eq!(generate_quote(&dict, 0, &mut rng), Ok("Hi.".to_string()));
    let branch = build_branch(&dict, "Hi.".to_string(), 0, &mut rng);
    assert_eq!(branch, chain(&["Hi."]));
    assert_eq!(assemble(&branch), Ok("Hi.".to_string()));
}

#[test]
fn walk_stops_at_a_token_without_successors() {
    let dict = load_dict(&Entries { entries: vec![entry("Hi", &[]), entry("Oh", &["no"])] });
    let mut rng = FixedSequence::new(vec![0]);
    assert_eq!(generate_quote(&dict, 4, &mut rng), Ok("Hi.".to_string()));
    let mut rng = FixedSequence::new(vec![1]);
    assert_eq!(generate_quote(&dict, 4, &mut rng), Ok("Oh no.".to_string()));
    let branch = build_branch(&dict, "stranger".to_string(), 4, &mut rng);
    assert_eq!(branch, chain(&["stranger"]));
}

#[test]
fn corpus_without_uppercase_key_fails() {
    let filter = LineFilter::new().expect("the line patterns compile");
    let dict = build_dictionary(&filter, "the cat sat. the dog ran", Unit::Word);
    let mut rng = FixedSequence::new(vec![0]);
    assert_eq!(generate_quote(&dict, 5, &mut rng), Err(QuoteError::EmptyCorpus));
    assert_eq!(choose_start(&dict, &mut rng), Err(QuoteError::EmptyCorpus));
    let empty = TransitionDictionary::new();
    assert_eq!(generate_quote(&empty, 5, &mut rng), Err(QuoteError::EmptyCorpus));
    let mut system = ThreadSource::new();
    assert_eq!(generate_quote(&empty, 5, &mut system), Err(QuoteError::EmptyCorpus));
}

#[test]
fn empty_key_is_no_start() {
    let dict = load_dict(&Entries { entries: vec![entry("", &["Up"])] });
    let mut rng = FixedSequence::new(vec![0]);
    assert_eq!(generate_quote(&dict, 5, &mut rng), Err(QuoteError::EmptyCorpus));
}

#[test]
fn start_is_drawn_among_uppercase_keys() {
    let dict = load_dict(&Entries {
        entries: vec![entry("a", &["x"]), entry("B", &["x"]), entry("c", &["x"]), entry("D", &["x"])],
    });
    let mut rng = FixedSequence::new(vec![0, 1, 2, 3]);
    assert_eq!(choose_start(&dict, &mut rng), Ok("B".to_string()));
    assert_eq!(choose_start(&dict, &mut rng), Ok("D".to_string()));
    assert_eq!(choose_start(&dict, &mut rng), Ok("B".to_string()));
    assert_eq!(choose_start(&dict, &mut rng), Ok("D".to_string()));
}

#[test]
fn start_positions_are_those_of_uppercase_keys() {
    let dict = load_dict(&Entries {
        entries: vec![entry("a", &["x"]), entry("B", &["x"]), entry("", &["x"]), entry("D", &[])],
    });
    assert_eq!(start_positions(&dict), vec![1, 3]);
    assert_eq!(start_positions(&TransitionDictionary::new()), Vec::<usize>::new());
    assert_eq!(start_positions(&animals()), vec![0]);
}

#[test]
fn start_is_the_key_at_the_index() {
    let dict = load_dict(&Entries {
        entries: vec![entry("a", &["x"]), entry("B", &["x"]), entry("c", &["x"]), entry("D", &["x"])],
    });
    assert_eq!(start_at(&dict, 0), "B");
    assert_eq!(start_at(&dict, 1), "D");
}

#[test]
fn successor_is_the_token_at_the_index() {
    let dict = animals();
    let the = "The".to_string();
    assert_eq!(successor_count(&dict, &the), 2);
    assert_eq!(successor_at(&dict, &the, 0), "cat");
    assert_eq!(successor_at(&dict, &the, 1), "dog");
    assert_eq!(successor_count(&dict, &"ran".to_string()), 0);
    let silent = load_dict(&Entries { entries: vec![entry("Hi", &[])] });
    assert_eq!(successor_count(&silent, &"Hi".to_string()), 0);
}

#[test]
fn each_step_takes_the_successor_drawn() {
    let dict = load_dict(&Entries {
        entries: vec![entry("A", &["b", "c", "d"]), entry("c", &["e", "f"]), entry("d", &["A"])],
    });
    let mut rng = FixedSequence::new(vec![1, 1]);
    assert_eq!(build_branch(&dict, "A".to_string(), 5, &mut rng), chain(&["A", "c", "f"]));
    let mut rng = FixedSequence::new(vec![2, 0]);
    assert_eq!(
        build_branch(&dict, "A".to_string(), 4, &mut rng),
        chain(&["A", "d", "A", "d", "A"])
    );
    let mut rng = FixedSequence::new(vec![2, 0, 0]);
    assert_eq!(
        build_branch(&dict, "A".to_string(), 4, &mut rng),
        chain(&["A", "d", "A", "b"])
    );
    let mut rng = FixedSequence::new(vec![0]);
    assert_eq!(build_branch(&dict, "A".to_string(), 5, &mut rng), chain(&["A", "b"]));
}

#[test]
fn no_draw_is_made_without_need() {
    let dict = load_dict(&Entries { entries: vec![entry("Hi", &[]), entry("low", &["x"])] });
    let mut rng = FixedSequence::new(vec![7, 8, 9]);
    assert_eq!(build_branch(&dict, "Hi".to_string(), 3, &mut rng), chain(&["Hi"]));
    assert_eq!(build_branch(&dict, "low".to_string(), 0, &mut rng), chain(&["low"]));
    assert_eq!(build_branch(&dict, "none".to_string(), 3, &mut rng), chain(&["none"]));
    let lowercase = load_dict(&Entries { entries: vec![entry("low", &["x"])] });
    assert_eq!(choose_start(&lowercase, &mut rng), Err(QuoteError::EmptyCorpus));
    assert_eq!(rng.below(10), 7);
}

#[test]
fn corpus_without_uppercase_key_fails_for_any_length() {
    let dict = load_dict(&Entries { entries: vec![entry("low", &["low"])] });
    let mut rng = FixedSequence::new(vec![0]);
    for length in [i32::MIN, -1, 0, 1, i32::MAX] {
        assert_eq!(generate_quote(&dict, length, &mut rng), Err(QuoteError::EmptyCorpus));
    }
}

#[test]
fn random_quotes_keep_their_shape() {
    let dict = animals();
    let mut rng = ThreadSource::new();
    for length in 0..6 {
        for _ in 0..20 {
            let quote = generate_quote(&dict, length, &mut rng).expect("there is a start key");
            let tokens: Vec<&str> = quote.split(' ').collect();
            assert!(tokens.len() >= 1);
            assert!(tokens.len() <= length as usize + 1);
            assert_eq!(tokens[0].trim_end_matches('.'), "The");
            assert!(tokens[0].chars().next().unwrap().is_uppercase());
            let last = quote.chars().last().unwrap();
            assert!(last == '.' || last == ',' || last == '!' || last == '?');
            for pair in tokens.windows(2) {
                let key = pair[0].to_string();
                let next = pair[1].trim_end_matches('.').to_string();
                let successors = dict.get(&key).expect("a step leaves from a key");
                assert!(successors.iter().any(|s| s.trim_end_matches('.') == next));
            }
        }
    }
}

#[test]
fn system_generator_stays_below_the_bound() {
    let mut rng = ThreadSource::new();
    assert_eq!(rng.below(1), 0);
    let mut seen = [false; 4];
    for _ in 0..400 {
        let drawn = rng.below(4);
        assert!(drawn < 4);
        seen[drawn] = true;
    }
    assert_eq!(seen, [true; 4]);
}

#[test]
fn fixed_sequence_replays_its_values() {
    let mut rng = FixedSequence::new(vec![5, 1, 7]);
    assert_eq!(rng.below(4), 1);
    assert_eq!(rng.below(4), 1);
    assert_eq!(rng.below(4), 3);
    assert_eq!(rng.below(4), 1);
    assert_eq!(rng.draw(10), 1);
    assert_eq!(rng.draw(10), 7);
    let mut silent = FixedSequence::new(vec![]);
    assert_eq!(silent.below(3), 0);
    assert_eq!(silent.below(3), 0);
}

#[test]
fn chain_builds_its_tokens() {
    assert_eq!(Quote::Nil.build(), None);
    assert_eq!(chain(&["a"]).build(), Some(words(&["a"])));
    assert_eq!(chain(&["a", "b", "c"]).build(), Some(words(&["a", "b", "c"])));
}

#[test]
fn empty_chain_gives_no_quote() {
    assert_eq!(assemble(&Quote::Nil), Err(QuoteError::NoSampleableSuccessor));
}

#[test]
fn quote_is_closed_by_punctuation() {
    assert_eq!(assemble(&chain(&["Hello", "world"])), Ok("Hello world.".to_string()));
    assert_eq!(assemble(&chain(&["Hello", "world!"])), Ok("Hello world!".to_string()));
    assert_eq!(assemble(&chain(&["Well,"])), Ok("Well,".to_string()));
    assert_eq!(assemble(&chain(&["Why?"])), Ok("Why?".to_string()));
    assert_eq!(close("Hi.".to_string()), "Hi.");
    assert_eq!(close("Hi".to_string()), "Hi.");
    assert_eq!(close("Hi;".to_string()), "Hi;.");
    assert_eq!(close("".to_string()), ".");
}

#[test]
fn lone_punctuation_gets_a_period() {
    assert_eq!(close(".".to_string()), "..");
    assert_eq!(close("!".to_string()), "!.");
    assert_eq!(close("?".to_string()), "?.");
    assert_eq!(close(",".to_string()), ",.");
}

#[test]
fn failures_have_their_messages() {
    assert_eq!(QuoteError::SourceUnreadable.message(), "couldn't open subtitle file");
    assert_eq!(QuoteError::CacheUnreadable.message(), "couldn't open cached file");
    assert_eq!(QuoteError::CacheCorrupt.message(), "couldn't deserialize cached file");
    assert_eq!(
        QuoteError::CacheUnwritable { created: false }.message(),
        "couldn't create cache file"
    );
    assert_eq!(
        QuoteError::CacheUnwritable { created: true }.message(),
        "couldn't write to cache file"
    );
    assert_eq!(QuoteError::EmptyCorpus.message(), "couldn't determine the quote starting point");
    assert_eq!(QuoteError::NoSampleableSuccessor.message(), "couldn't build a random quote");
}
