use subquote::builder::build_dictionary;
use subquote::cache::{cache_path, file_name, load_dict, save_dict, stem_of, Entries, Entry};
use subquote::dictionary::TransitionDictionary;
use subquote::io::{SafeArguments, Unit};
use subquote::tokenizer::LineFilter;

fn filter() -> LineFilter {
    LineFilter::new().expect("the line patterns compile")
}

fn words(items: &[&str]) -> Vec<String> {
    items.iter().map(|s| s.to_string()).collect()
}

fn entry(key: &str, pairs: &[&str]) -> Entry {
    Entry::new(key.to_string(), words(pairs))
}

fn successors(dict: &TransitionDictionary, key: &str) -> Option<Vec<String>> {
    dict.get(&key.to_string()).cloned()
}

#[test]
fn single_line_corpus() {
    let dict = build_dictionary(&filter(), "Hello world", Unit::Word);
    assert_eq!(dict.len(), 1);
    assert_eq!(successors(&dict, "Hello"), Some(words(&["world"])));
    assert_eq!(successors(&dict, "world"), None);
}

#[test]
fn empty_corpus_gives_empty_dictionary() {
    assert_eq!(build_dictionary(&filter(), "", Unit::Word).len(), 0);
    assert_eq!(build_dictionary(&filter(), "1\n00:00:01,000 --> 00:00:02,000\n\n", Unit::Word).len(), 0);
    assert_eq!(build_dictionary(&filter(), "Alone", Unit::Word).len(), 0);
}

#[test]
fn repeated_successors_are_kept_in_order() {
    let dict = build_dictionary(&filter(), "a b a c a b", Unit::Word);
    assert_eq!(successors(&dict, "a"), Some(words(&["b", "c", "b"])));
    assert_eq!(successors(&dict, "b"), Some(words(&["a"])));
    assert_eq!(successors(&dict, "c"), Some(words(&["a"])));
    assert_eq!(dict.len(), 3);
    assert_eq!(dict.key_at(0), "a");
    assert_eq!(dict.key_at(1), "b");
    assert_eq!(dict.key_at(2), "c");
    assert_eq!(dict.successors_at(0), &words(&["b", "c", "b"]));
}

#[test]
fn pairs_do_not_cross_lines() {
    let dict = build_dictionary(&filter(), "one two\nthree four\n", Unit::Word);
    assert_eq!(successors(&dict, "one"), Some(words(&["two"])));
    assert_eq!(successors(&dict, "two"), None);
    assert_eq!(successors(&dict, "three"), Some(words(&["four"])));
}

#[test]
fn subtitle_blocks_are_folded() {
    let text = "1\r\n00:00:01,000 --> 00:00:02,500\r\n<i>The cat</i> sat.\r\n\r\n2\r\n00:00:03,000 --> 00:00:04,000\r\nThe dog - ran, home\r\n";
    let dict = build_dictionary(&filter(), text, Unit::Word);
    assert_eq!(dict.len(), 3);
    assert_eq!(successors(&dict, "The"), Some(words(&["dog"])));
    assert_eq!(successors(&dict, "dog"), Some(words(&["ran"])));
    assert_eq!(successors(&dict, "ran"), Some(words(&["home"])));
    assert_eq!(successors(&dict, "sat."), None);
}

#[test]
fn key_with_trailing_period_is_not_entered() {
    let dict = build_dictionary(&filter(), "The end. The start", Unit::Word);
    assert_eq!(successors(&dict, "The"), Some(words(&["end.", "start"])));
    assert_eq!(successors(&dict, "end."), None);
    assert_eq!(dict.len(), 1);
}

#[test]
fn known_key_with_trailing_period_still_grows() {
    let mut dict = load_dict(&Entries { entries: vec![entry("end.", &["The"])] });
    dict.observe("end.".to_string(), "Fin".to_string());
    assert_eq!(successors(&dict, "end."), Some(words(&["The", "Fin"])));
    dict.observe("stop.".to_string(), "Go".to_string());
    assert_eq!(successors(&dict, "stop."), None);
    dict.absorb(&words(&["end.", "And", "end.", "Or"]));
    assert_eq!(successors(&dict, "end."), Some(words(&["The", "Fin", "And", "Or"])));
    assert_eq!(successors(&dict, "And"), Some(words(&["end."])));
}

#[test]
fn observe_enters_and_extends() {
    let mut dict = TransitionDictionary::new();
    assert_eq!(dict.position(&"a".to_string()), None);
    dict.observe("a".to_string(), "b".to_string());
    dict.observe("b".to_string(), "c".to_string());
    dict.observe("a".to_string(), "d".to_string());
    assert_eq!(dict.position(&"a".to_string()), Some(0));
    assert_eq!(dict.position(&"b".to_string()), Some(1));
    assert_eq!(successors(&dict, "a"), Some(words(&["b", "d"])));
}

#[test]
fn insert_replaces_in_place() {
    let mut dict = TransitionDictionary::new();
    dict.insert("a".to_string(), words(&["x"]));
    dict.insert("b".to_string(), words(&["y"]));
    dict.insert("a".to_string(), words(&["z", "z"]));
    assert_eq!(dict.len(), 2);
    assert_eq!(dict.key_at(0), "a");
    assert_eq!(successors(&dict, "a"), Some(words(&["z", "z"])));
    assert_eq!(successors(&dict, "b"), Some(words(&["y"])));
}

#[test]
fn saved_dictionary_loads_back() {
    let dict = build_dictionary(&filter(), "The cat sat. The dog ran\nA cat ran", Unit::Word);
    let saved = save_dict(&dict);
    let loaded = load_dict(&saved);
    assert_eq!(save_dict(&loaded), saved);
    assert_eq!(loaded.len(), dict.len());
    for i in 0..dict.len() {
        let key = dict.key_at(i).clone();
        assert_eq!(loaded.get(&key), dict.get(&key));
    }
    assert_eq!(
        saved,
        Entries {
            entries: vec![
                entry("The", &["cat", "dog"]),
                entry("cat", &["sat.", "ran"]),
                entry("dog", &["ran"]),
                entry("A", &["cat"]),
            ]
        }
    );
}

#[test]
fn record_order_does_not_matter() {
    let dict = build_dictionary(&filter(), "The cat sat. The dog ran\nA cat ran", Unit::Word);
    let mut shuffled = save_dict(&dict);
    shuffled.entries.reverse();
    let loaded = load_dict(&shuffled);
    assert_eq!(loaded.len(), dict.len());
    for i in 0..dict.len() {
        let key = dict.key_at(i).clone();
        assert_eq!(loaded.get(&key), dict.get(&key));
    }
    assert_eq!(loaded.key_at(0), "A");
}

#[test]
fn last_record_of_a_key_wins() {
    let entries = Entries {
        entries: vec![entry("a", &["x"]), entry("b", &["y"]), entry("a", &["z"])],
    };
    let dict = load_dict(&entries);
    assert_eq!(dict.len(), 2);
    assert_eq!(successors(&dict, "a"), Some(words(&["z"])));
    assert_eq!(dict.key_at(0), "a");
    assert_eq!(dict.key_at(1), "b");
}

#[test]
fn saving_leaves_the_dictionary_usable() {
    let dict = build_dictionary(&filter(), "Hello world", Unit::Word);
    let _ = save_dict(&dict);
    assert_eq!(successors(&dict, "Hello"), Some(words(&["world"])));
}

#[test]
fn records_are_collected() {
    let mut entries = Entries::new();
    assert_eq!(entries.entries.len(), 0);
    entries.add_entry(Entry::new("a".to_string(), words(&["b"])));
    entries.add_entry(entry("c", &[]));
    assert_eq!(entries.entries.len(), 2);
    assert_eq!(entries.entries[0].key, "a");
    assert_eq!(entries.entries[0].pairs, words(&["b"]));
    assert_eq!(entries.entries[1].key, "c");
}

#[test]
fn cache_file_is_named_after_subtitle_and_unit() {
    let word = SafeArguments::new(
        "/videos/movie.srt".to_string(),
        5,
        false,
        "/home/me/.cache/subquote".to_string(),
        Unit::Word,
    );
    assert_eq!(cache_path(&word), "/home/me/.cache/subquote/movie.word");
    let grapheme = SafeArguments::new(
        "movie.srt".to_string(),
        25,
        true,
        "cache".to_string(),
        Unit::Grapheme,
    );
    assert_eq!(cache_path(&grapheme), "cache/movie.char");
}

fn cached(directory: &str, subtitle: &str) -> String {
    cache_path(&SafeArguments::new(
        subtitle.to_string(),
        5,
        false,
        directory.to_string(),
        Unit::Word,
    ))
}

#[test]
fn cache_directory_gets_one_separator() {
    assert_eq!(cached("/cache", "a.srt"), "/cache/a.word");
    assert_eq!(cached("/cache/", "a.srt"), "/cache/a.word");
    assert_eq!(cached("/", "a.srt"), "/a.word");
    assert_eq!(cached("", "a.srt"), "a.word");
}

#[test]
fn unit_replaces_the_extension() {
    assert_eq!(cached("/c", "/v/movie.srt"), "/c/movie.word");
    assert_eq!(cached("/c", "/v/movie"), "/c/movie.word");
    assert_eq!(cached("/c", "/v/movie.en.srt"), "/c/movie.en.word");
    assert_eq!(cached("/c", "/v/.hidden"), "/c/.hidden.word");
    assert_eq!(cached("/c", "/v.d/movie"), "/c/movie.word");
}

#[test]
fn cache_path_agrees_with_the_path_library() {
    let subtitles = ["movie.srt", "/v/movie", "a/b.c/d.e.srt", "/v/.hidden", "x/.a.b", "/v/movie."];
    let directories = ["/cache", "/cache/", "rel/dir", "/"];
    for subtitle in subtitles {
        for directory in directories {
            let name = subtitle.split('/').last().unwrap();
            let mut expected = std::path::PathBuf::from(directory);
            expected.push(name);
            expected.set_extension("word");
            assert_eq!(cached(directory, subtitle), expected.to_str().unwrap());
        }
    }
}

#[test]
fn stem_stands_before_the_last_period() {
    assert_eq!(stem_of("movie.srt"), "movie");
    assert_eq!(stem_of("movie"), "movie");
    assert_eq!(stem_of("a.b.c"), "a.b");
    assert_eq!(stem_of(".hidden"), ".hidden");
    assert_eq!(stem_of(".a.b"), ".a");
    assert_eq!(stem_of("movie."), "movie");
    assert_eq!(stem_of(""), "");
}

#[test]
fn file_name_follows_the_last_slash() {
    assert_eq!(file_name("/a/b/c.srt"), "c.srt");
    assert_eq!(file_name("c.srt"), "c.srt");
    assert_eq!(file_name("a/"), "");
    assert_eq!(file_name(""), "");
}
