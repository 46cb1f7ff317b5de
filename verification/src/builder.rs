//! Building a transition dictionary from subtitle text, and walking it to
//! a quote.

use vstd::prelude::*;
use crate::cache::{cache_location, cache_path, load_dict, save_dict, Entries, Record};
use crate::dictionary::{
    absorb, grown, has_key, lemma_absorb_grown, lemma_records_map, records_map,
    TransitionDictionary,
};
use crate::error::QuoteError;
use crate::io::{SafeArguments, Unit};
use crate::random::{drawn_since, Draw, UniformSource};
use crate::text::{
    close, closed, is_closing, join_spaced, lemma_joined_begins, leads_uppercase, spaced,
    starts_uppercase, uppercase, views, Token,
};
use crate::tokenizer::{lemma_split_whitespace, lines_of, split_lines, LineFilter};

verus! {

/// The records after every line of `lines` was tokenized and absorbed,
/// from first to last. Pairs do not cross from one line into the next.
pub open spec fn absorb_lines(
    filter: LineFilter,
    records: Seq<Record>,
    lines: Seq<Seq<char>>,
) -> Seq<Record>
    decreases lines.len(),
{
    if lines.len() == 0 {
        records
    } else {
        absorb(absorb_lines(filter, records, lines.drop_last()), filter.tokens(lines.last()))
    }
}

/// The records of the dictionary that `text` gives rise to.
pub open spec fn corpus_records(filter: LineFilter, text: Seq<char>) -> Seq<Record> {
    absorb_lines(filter, Seq::<Record>::empty(), lines_of(text))
}

/// Whatever the lines are, the records that they give rise to are grown:
/// no key occurs twice, is empty or ends with a period, and every key has
/// a successor.
pub proof fn lemma_lines_grown(filter: LineFilter, lines: Seq<Seq<char>>)
    ensures
        grown(absorb_lines(filter, Seq::<Record>::empty(), lines)),
    decreases lines.len(),
{
    if lines.len() > 0 {
        lemma_lines_grown(filter, lines.drop_last());
        let line = lines.last();
        if !filter.discards(line) {
            lemma_split_whitespace(filter.cleaned(line));
        }
        lemma_absorb_grown(
            absorb_lines(filter, Seq::<Record>::empty(), lines.drop_last()),
            filter.tokens(line),
        );
    }
}

/// Folds the token stream of `text` into a transition dictionary.
/// Building never fails, and what is built is grown.
pub fn build_dictionary(filter: &LineFilter, text: &str, unit: Unit) -> (dict:
    TransitionDictionary)
    requires
        filter.wf(),
    ensures
        dict.wf(),
        dict.records() == corpus_records(*filter, text@),
        grown(dict.records()),
{
    proof {
        lemma_lines_grown(*filter, lines_of(text@));
    }
    let lines = split_lines(text);
    let ghost all = views(lines@);
    let mut dict = TransitionDictionary::new();
    let mut i: usize = 0;
    while i < lines.len()
        invariant
            i <= lines.len(),
            all == views(lines@),
            filter.wf(),
            dict.wf(),
            dict.records() == absorb_lines(*filter, Seq::<Record>::empty(), all.take(i as int)),
        decreases lines.len() - i,
    {
        let tokens = filter.tokenize(lines[i].as_str(), unit);
        proof {
            let now = all.take(i + 1);
            assert(now.drop_last() =~= all.take(i as int));
            assert(now.last() == lines[i as int]@);
        }
        dict.absorb(&tokens);
        i = i + 1;
    }
    proof {
        assert(all.take(i as int) =~= all);
    }
    dict
}

/// A chain of tokens: a token and what follows it, or nothing.
#[derive(Debug, PartialEq, Eq)]
pub enum Quote {
    Node(String, Box<Quote>),
    Nil,
}

impl Quote {
    /// The tokens of the chain, from its head on.
    pub open spec fn tokens(self) -> Seq<Token>
        decreases self,
    {
        match self {
            Quote::Node(unit, next) => seq![unit@] + next.tokens(),
            Quote::Nil => seq![],
        }
    }

    /// The tokens of the chain as a vector; `None` for the empty chain.
    pub fn build(&self) -> (built: Option<Vec<String>>)
        ensures
            built is None <==> *self is Nil,
            built matches Some(tokens) ==> views(tokens@) == self.tokens(),
        decreases self,
    {
        match self {
            Quote::Node(unit, next) => {
                match next.build() {
                    Some(mut remaining) => {
                        let mut current: Vec<String> = Vec::new();
                        current.push(unit.clone());
                        let ghost head = current@;
                        let ghost tail = remaining@;
                        current.append(&mut remaining);
                        proof {
                            assert(current@ =~= head + tail);
                            assert(views(current@) =~= seq![unit@] + views(tail));
                        }
                        Some(current)
                    },
                    None => {
                        let mut current: Vec<String> = Vec::new();
                        current.push(unit.clone());
                        proof {
                            assert(next.tokens() =~= seq![]);
                            assert(views(current@) =~= seq![unit@] + next.tokens());
                        }
                        Some(current)
                    },
                }
            },
            Quote::Nil => None,
        }
    }
}

/// Whether `walk` is a walk over `dict` with `budget` steps to spend: it
/// holds at least one token, each token but the first is a recorded
/// successor of the one before it, it takes at most `budget` steps, and
/// it stops early only at a token that has no successor to go on with.
pub open spec fn is_walk(dict: Map<Token, Seq<Token>>, walk: Seq<Token>, budget: int) -> bool {
    &&& 1 <= walk.len() <= budget + 1
    &&& forall|i: int|
        0 <= i < walk.len() - 1 ==> dict.contains_key(#[trigger] walk[i]) && dict[walk[i]].contains(
            walk[i + 1],
        )
    &&& (walk.len() == budget + 1 || !dict.contains_key(walk.last()) || dict[walk.last()].len()
        == 0)
}

/// Whether `walk` took its steps by `draws`: one draw for each step, each
/// asking for an index among the successors of the token that the step
/// leaves, and the step goes to the successor at the index drawn.
pub open spec fn follows(dict: Map<Token, Seq<Token>>, walk: Seq<Token>, draws: Seq<Draw>) -> bool {
    &&& draws.len() == walk.len() - 1
    &&& forall|i: int|
        0 <= i < draws.len() ==> {
            &&& dict.contains_key(walk[i])
            &&& (#[trigger] draws[i]).bound == dict[walk[i]].len()
            &&& draws[i].index < draws[i].bound
            &&& walk[i + 1] == dict[walk[i]][draws[i].index as int]
        }
}

/// The keys that a quote may start with: those whose first character is
/// uppercase, in the order of the records.
pub open spec fn start_keys(records: Seq<Record>) -> Seq<Token>
    decreases records.len(),
{
    if records.len() == 0 {
        seq![]
    } else if leads_uppercase(records.last().0) {
        start_keys(records.drop_last()).push(records.last().0)
    } else {
        start_keys(records.drop_last())
    }
}

/// Whether some key of `dict` starts with an uppercase character.
pub open spec fn has_start(dict: Map<Token, Seq<Token>>) -> bool {
    exists|key: Token| #[trigger] dict.contains_key(key) && leads_uppercase(key)
}

/// Whether `text` is the quote that the walk `walk` over `dict` reads as:
/// the walk starts at a key with an uppercase first character, and the
/// text is its tokens joined by single spaces and closed by punctuation.
pub open spec fn is_quote_of(
    dict: Map<Token, Seq<Token>>,
    walk: Seq<Token>,
    budget: int,
    text: Seq<char>,
) -> bool {
    &&& is_walk(dict, walk, budget)
    &&& dict.contains_key(walk[0])
    &&& leads_uppercase(walk[0])
    &&& text == closed(spaced(walk))
}

/// Whether `walk` is the walk that `draws` lead to: the first draw picks
/// the start among the start keys, each further draw picks one step.
pub open spec fn is_drawn(records: Seq<Record>, walk: Seq<Token>, draws: Seq<Draw>) -> bool {
    &&& draws.len() >= 1
    &&& walk.len() >= 1
    &&& draws[0].bound == start_keys(records).len()
    &&& draws[0].index < draws[0].bound
    &&& walk[0] == start_keys(records)[draws[0].index as int]
    &&& follows(records_map(records), walk, draws.drop_first())
}

/// The start keys are keys, each starts with an uppercase character, and
/// there is one exactly if some key starts so.
pub proof fn lemma_start_keys(records: Seq<Record>)
    ensures
        forall|j: int|
            0 <= j < start_keys(records).len() ==> has_key(
                records,
                #[trigger] start_keys(records)[j],
            ) && leads_uppercase(start_keys(records)[j]),
        forall|i: int|
            0 <= i < records.len() && leads_uppercase((#[trigger] records[i]).0) ==> start_keys(
                records,
            ).len() > 0,
        start_keys(records).len() > 0 <==> has_start(records_map(records)),
    decreases records.len(),
{
    lemma_records_map(records);
    if records.len() > 0 {
        let front = records.drop_last();
        lemma_start_keys(front);
        lemma_records_map(front);
        assert forall|j: int| 0 <= j < start_keys(records).len() implies has_key(
            records,
            #[trigger] start_keys(records)[j],
        ) && leads_uppercase(start_keys(records)[j]) by {
            if j < start_keys(front).len() {
                let key = start_keys(front)[j];
                assert(has_key(front, key));
                let at = crate::dictionary::key_index(front, key);
                assert(records[at].0 == key);
            } else {
                assert(records[records.len() - 1].0 == start_keys(records)[j]);
            }
        }
        assert forall|i: int|
            0 <= i < records.len() && leads_uppercase(
                (#[trigger] records[i]).0,
            ) implies start_keys(records).len() > 0 by {
            if i < records.len() - 1 {
                assert(front[i] == records[i]);
            }
        }
    }
    if start_keys(records).len() > 0 {
        let key = start_keys(records)[0];
        assert(has_key(records, key));
        assert(records_map(records).contains_key(key));
    }
    if has_start(records_map(records)) {
        let key = choose|key: Token| #[trigger]
            records_map(records).contains_key(key) && leads_uppercase(key);
        assert(has_key(records, key));
        let i = crate::dictionary::key_index(records, key);
        assert(leads_uppercase(records[i].0));
    }
}

/// The chain that holds `unit` alone.
fn leaf(unit: String) -> (branch: Quote)
    ensures
        branch.tokens() == seq![unit@],
{
    let branch = Quote::Node(unit, Box::new(Quote::Nil));
    proof {
        assert(Quote::Nil.tokens() =~= seq![]);
        assert(branch.tokens() =~= seq![unit@]);
    }
    branch
}

/// The number of successors recorded for `current`; none where it is no
/// key.
pub fn successor_count(dict: &TransitionDictionary, current: &String) -> (count: usize)
    requires
        dict.wf(),
    ensures
        count == if dict@.contains_key(current@) {
            dict@[current@].len()
        } else {
            0
        },
{
    match dict.get(current) {
        Some(successors) => successors.len(),
        None => 0,
    }
}

/// The successor of `current` that stands at `index` in its list.
pub fn successor_at(dict: &TransitionDictionary, current: &String, index: usize) -> (next: String)
    requires
        dict.wf(),
        dict@.contains_key(current@),
        index < dict@[current@].len(),
    ensures
        next@ == dict@[current@][index as int],
{
    match dict.get(current) {
        Some(successors) => successors[index].clone(),
        None => vstd::pervasive::unreached(),
    }
}

/// Walks `dict` from `unit` on, for at most `length` steps. Each step
/// draws an index among the successors of the token it leaves and goes to
/// the successor at that index. A token without successors ends the walk
/// without a draw.
pub fn build_branch<R: UniformSource>(
    dict: &TransitionDictionary,
    unit: String,
    length: i32,
    rng: &mut R,
) -> (branch: Quote)
    requires
        dict.wf(),
        length >= 0,
    ensures
        branch.tokens()[0] == unit@,
        is_walk(dict@, branch.tokens(), length as int),
        old(rng).drawn().is_prefix_of(final(rng).drawn()),
        follows(dict@, branch.tokens(), drawn_since(old(rng).drawn(), final(rng).drawn())),
    decreases length,
{
    let ghost before = rng.drawn();
    proof {
        assert(before.subrange(0, before.len() as int) =~= before);
        assert(drawn_since(before, before) =~= Seq::<Draw>::empty());
    }
    if length == 0 {
        return leaf(unit);
    }
    let count = successor_count(dict, &unit);
    if count == 0 {
        return leaf(unit);
    }
    let random = rng.below(count);
    let next = successor_at(dict, &unit, random);
    let ghost first = Draw { bound: count, index: random };
    let ghost middle = rng.drawn();
    let rest = build_branch(dict, next, length - 1, rng);
    let ghost tail = rest.tokens();
    let branch = Quote::Node(unit, Box::new(rest));
    proof {
        let after = rng.drawn();
        let walk = branch.tokens();
        let made = drawn_since(before, after);
        let later = drawn_since(middle, after);
        assert(walk =~= seq![unit@] + tail);
        assert(middle == before.push(first));
        assert(after.subrange(0, middle.len() as int) == middle);
        assert(before =~= after.subrange(0, before.len() as int)) by {
            assert forall|i: int| 0 <= i < before.len() implies before[i] == after[i] by {
                assert(middle[i] == after.subrange(0, middle.len() as int)[i]);
            }
        }
        assert(made[0] == first) by {
            assert(middle[before.len() as int] == after.subrange(0, middle.len() as int)[before.len() as int]);
        }
        assert forall|i: int| 0 <= i < walk.len() - 1 implies dict@.contains_key(
            #[trigger] walk[i],
        ) && dict@[walk[i]].contains(walk[i + 1]) by {
            if i == 0 {
                assert(walk[1] == tail[0]);
            } else {
                assert(walk[i] == tail[i - 1]);
                assert(walk[i + 1] == tail[i]);
            }
        }
        assert(walk.last() == tail.last());
        assert forall|i: int| 0 <= i < made.len() implies {
            &&& dict@.contains_key(walk[i])
            &&& (#[trigger] made[i]).bound == dict@[walk[i]].len()
            &&& made[i].index < made[i].bound
            &&& walk[i + 1] == dict@[walk[i]][made[i].index as int]
        } by {
            if i == 0 {
                assert(walk[1] == tail[0]);
            } else {
                assert(made[i] == later[i - 1]);
                assert(walk[i] == tail[i - 1]);
                assert(walk[i + 1] == tail[i]);
            }
        }
    }
    branch
}

/// The positions of the keys that start with an uppercase character, in
/// ascending order: the positions of the start keys.
pub fn start_positions(dict: &TransitionDictionary) -> (starts: Vec<usize>)
    ensures
        starts.len() == start_keys(dict.records()).len(),
        forall|j: int|
            0 <= j < starts.len() ==> (#[trigger] starts[j]) < dict.records().len()
                && dict.records()[starts[j] as int].0 == start_keys(dict.records())[j],
        forall|a: int, b: int| 0 <= a < b < starts.len() ==> starts[a] < starts[b],
{
    let ghost records = dict.records();
    let mut starts: Vec<usize> = Vec::new();
    let mut i: usize = 0;
    while i < dict.len()
        invariant
            records == dict.records(),
            i <= records.len(),
            starts.len() == start_keys(records.take(i as int)).len(),
            forall|j: int|
                0 <= j < starts.len() ==> (#[trigger] starts[j]) < i && records[starts[j] as int].0
                    == start_keys(records.take(i as int))[j],
            forall|a: int, b: int| 0 <= a < b < starts.len() ==> starts[a] < starts[b],
        decreases records.len() - i,
    {
        proof {
            let now = records.take(i + 1);
            assert(now.drop_last() =~= records.take(i as int));
            assert(now.last() == records[i as int]);
        }
        if starts_uppercase(dict.key_at(i).as_str()) {
            starts.push(i);
        }
        i = i + 1;
    }
    proof {
        assert(records.take(i as int) =~= records);
    }
    starts
}

/// The start key that stands at `index` among the start keys.
pub fn start_at(dict: &TransitionDictionary, index: usize) -> (start: String)
    requires
        index < start_keys(dict.records()).len(),
    ensures
        start@ == start_keys(dict.records())[index as int],
{
    let starts = start_positions(dict);
    dict.key_at(starts[index]).clone()
}

/// Draws the token that a quote starts with: one draw among the start
/// keys, and the key at the index drawn. Without a start key there is no
/// draw.
pub fn choose_start<R: UniformSource>(dict: &TransitionDictionary, rng: &mut R) -> (start: Result<
    String,
    QuoteError,
>)
    requires
        dict.wf(),
    ensures
        start is Ok <==> has_start(dict@),
        match start {
            Ok(key) => {
                &&& dict@.contains_key(key@)
                &&& leads_uppercase(key@)
                &&& final(rng).drawn().len() == old(rng).drawn().len() + 1
                &&& final(rng).drawn().drop_last() == old(rng).drawn()
                &&& final(rng).drawn().last().bound == start_keys(dict.records()).len()
                &&& final(rng).drawn().last().index < start_keys(dict.records()).len()
                &&& key@ == start_keys(dict.records())[final(rng).drawn().last().index as int]
            },
            Err(e) => e == QuoteError::EmptyCorpus && final(rng).drawn() == old(rng).drawn(),
        },
{
    proof {
        lemma_records_map(dict.records());
        lemma_start_keys(dict.records());
    }
    let count = start_positions(dict).len();
    if count == 0 {
        Err(QuoteError::EmptyCorpus)
    } else {
        let ghost before = rng.drawn();
        let random = rng.below(count);
        let key = start_at(dict, random);
        proof {
            assert(rng.drawn().drop_last() =~= before);
        }
        Ok(key)
    }
}

/// The text of a chain of tokens: the tokens joined by single spaces,
/// with a period at the end unless the text is closed already.
pub fn assemble(branch: &Quote) -> (quote: Result<String, QuoteError>)
    ensures
        match quote {
            Ok(text) => {
                &&& !(*branch is Nil)
                &&& text@ == closed(spaced(branch.tokens()))
                &&& branch.tokens()[0].is_prefix_of(text@)
                &&& text@.len() > 0
                &&& is_closing(text@.last())
            },
            Err(e) => *branch is Nil && e == QuoteError::NoSampleableSuccessor,
        },
{
    match branch.build() {
        Some(tokens) => {
            let joined = join_spaced(&tokens);
            proof {
                lemma_joined_begins(branch.tokens(), seq![' ']);
            }
            Ok(close(joined))
        },
        None => Err(QuoteError::NoSampleableSuccessor),
    }
}

/// Whether `quote` is what sampling the dictionary of `records` with
/// `budget` steps gives when the generator goes from the draws `before`
/// to the draws `after`. With a start key it is the quote of the walk
/// that the new draws lead to: it begins with an uppercase character and
/// ends in closing punctuation. Without one it is the failure that is
/// then due, and no draw was made.
pub open spec fn is_sample_of(
    records: Seq<Record>,
    budget: int,
    before: Seq<Draw>,
    after: Seq<Draw>,
    quote: Result<String, QuoteError>,
) -> bool {
    match quote {
        Ok(text) => {
            &&& has_start(records_map(records))
            &&& before.is_prefix_of(after)
            &&& exists|walk: Seq<Token>|
                is_quote_of(records_map(records), walk, budget, text@) && is_drawn(
                    records,
                    walk,
                    drawn_since(before, after),
                )
            &&& text@.len() > 0
            &&& uppercase(text@[0])
            &&& is_closing(text@.last())
        },
        Err(e) => {
            &&& !has_start(records_map(records))
            &&& e == QuoteError::EmptyCorpus
            &&& after == before
        },
    }
}

/// Samples a quote of at most `quote_length + 1` tokens from `dict`.
/// There is a quote exactly if some key starts with an uppercase
/// character; else the corpus is reported as empty, whatever the length.
/// The quote reads the walk that the draws lead to: one draw for the
/// start key, one for each step.
pub fn generate_quote<R: UniformSource>(
    dict: &TransitionDictionary,
    quote_length: i32,
    rng: &mut R,
) -> (quote: Result<String, QuoteError>)
    requires
        dict.wf(),
        has_start(dict@) ==> quote_length >= 0,
    ensures
        quote is Ok <==> has_start(dict@),
        quote matches Err(e) ==> e == QuoteError::EmptyCorpus,
        is_sample_of(
            dict.records(),
            quote_length as int,
            old(rng).drawn(),
            final(rng).drawn(),
            quote,
        ),
{
    let ghost before = rng.drawn();
    let first = match choose_start(dict, rng) {
        Ok(key) => key,
        Err(e) => {
            return Err(e);
        },
    };
    let ghost middle = rng.drawn();
    let branch = build_branch(dict, first, quote_length, rng);
    let quote = assemble(&branch);
    proof {
        let after = rng.drawn();
        let walk = branch.tokens();
        let made = drawn_since(before, after);
        assert(walk.len() >= 1);
        assert(quote is Ok);
        let text = quote->Ok_0@;
        assert(text[0] == walk[0][0]);
        assert(middle.drop_last() == before);
        assert(after.subrange(0, middle.len() as int) == middle);
        assert(before =~= after.subrange(0, before.len() as int)) by {
            assert forall|i: int| 0 <= i < before.len() implies before[i] == after[i] by {
                assert(middle.drop_last()[i] == middle[i]);
                assert(middle[i] == after.subrange(0, middle.len() as int)[i]);
            }
        }
        assert(made[0] == middle.last()) by {
            assert(middle[before.len() as int] == after.subrange(0, middle.len() as int)[before.len() as int]);
        }
        assert(made.drop_first() =~= drawn_since(middle, after));
        assert(is_quote_of(dict@, walk, quote_length as int, text));
        assert(is_drawn(dict.records(), walk, made));
    }
    quote
}

/// How far a run has come.
#[derive(Debug, Clone, Copy, PartialEq, Eq, Structural)]
pub enum Stage {
    /// Nothing was asked for yet.
    Start,
    /// The run asked whether there is a cache file.
    Probing,
    /// The run asked for the records of the cache file.
    Loading,
    /// The run asked for the text of the subtitle file.
    Reading,
    /// The run asked for its records to be written to the cache file.
    Storing,
    /// The run has ended.
    Finished,
}

/// What the caller reports back to a run.
#[derive(Debug, PartialEq, Eq)]
pub enum Event {
    /// The run is to start.
    Begin,
    /// There is a cache file.
    CacheFound,
    /// There is no cache file.
    CacheMissing,
    /// The cache file could not be opened.
    CacheUnopened,
    /// The cache file does not hold records.
    CacheMalformed,
    /// The records of the cache file.
    CacheLoaded(Entries),
    /// The subtitle file could not be read.
    SourceUnread,
    /// The text of the subtitle file.
    SourceRead(String),
    /// The cache file could not be created.
    CacheUncreated,
    /// The cache file was created and could not be written.
    CacheUnwritten,
    /// The cache file was written.
    CacheStored,
}

/// What a run asks its caller to do next.
#[derive(Debug, PartialEq, Eq)]
pub enum Action {
    /// Find out whether the file at this path is there.
    ProbeCache(String),
    /// Read the records of the cache file at this path.
    LoadCache(String),
    /// Read the text of the subtitle file at this path.
    ReadSource(String),
    /// Write these records to the cache file at this path.
    StoreCache(String, Entries),
    /// Show the quote, or the failure.
    Finish(Result<String, QuoteError>),
}

/// One run from the arguments to a quote. The run decides; its caller
/// touches the files.
pub struct Pipeline {
    stage: Stage,
    arguments: SafeArguments,
    dict: TransitionDictionary,
}

impl Pipeline {
    /// How far the run has come.
    pub closed spec fn stage(&self) -> Stage {
        self.stage
    }

    /// The arguments of the run.
    pub closed spec fn arguments(&self) -> SafeArguments {
        self.arguments
    }

    /// The records of the dictionary that the run holds.
    pub closed spec fn records(&self) -> Seq<Record> {
        self.dict.records()
    }

    /// The quote length is not negative and the dictionary is well
    /// formed.
    pub closed spec fn wf(&self) -> bool {
        self.arguments.quote_length >= 0 && self.dict.wf()
    }

    /// Where the run caches its dictionary.
    pub open spec fn cache_location(&self) -> Seq<char> {
        cache_location(
            self.arguments().cache_directory@,
            self.arguments().subtitle@,
            self.arguments().unit,
        )
    }

    /// Whether `event` is an answer to what the run asked for last.
    pub open spec fn accepts(&self, event: Event) -> bool {
        match self.stage() {
            Stage::Start => event is Begin,
            Stage::Probing => event is CacheFound || event is CacheMissing,
            Stage::Loading => event is CacheUnopened || event is CacheMalformed
                || event is CacheLoaded,
            Stage::Reading => event is SourceUnread || event is SourceRead,
            Stage::Storing => event is CacheUncreated || event is CacheUnwritten
                || event is CacheStored,
            Stage::Finished => false,
        }
    }

    /// A run that has not started yet.
    pub fn new(arguments: SafeArguments) -> (run: Self)
        requires
            arguments.quote_length >= 0,
        ensures
            run.wf(),
            run.stage() == Stage::Start,
            run.arguments() == arguments,
    {
        Pipeline { stage: Stage::Start, arguments, dict: TransitionDictionary::new() }
    }

    /// Whether `event` is an answer to what the run asked for last.
    pub fn expects(&self, event: &Event) -> (accepted: bool)
        ensures
            accepted == self.accepts(*event),
    {
        match self.stage {
            Stage::Start => match event {
                Event::Begin => true,
                _ => false,
            },
            Stage::Probing => match event {
                Event::CacheFound => true,
                Event::CacheMissing => true,
                _ => false,
            },
            Stage::Loading => match event {
                Event::CacheUnopened => true,
                Event::CacheMalformed => true,
                Event::CacheLoaded(_) => true,
                _ => false,
            },
            Stage::Reading => match event {
                Event::SourceUnread => true,
                Event::SourceRead(_) => true,
                _ => false,
            },
            Stage::Storing => match event {
                Event::CacheUncreated => true,
                Event::CacheUnwritten => true,
                Event::CacheStored => true,
                _ => false,
            },
            Stage::Finished => false,
        }
    }
}

/// Takes the run one step on: from what was reported back to what is
/// to be done next. A cache file that is there is loaded and the
/// subtitle is not read; else the subtitle is read, its dictionary is
/// stored, and only then a quote is sampled. Any failure ends the
/// run.
pub fn get_quote<R: UniformSource>(
    run: &mut Pipeline,
    event: Event,
    filter: &LineFilter,
    rng: &mut R,
) -> (action: Action)
    requires
        old(run).wf(),
        old(run).accepts(event),
        filter.wf(),
    ensures
        final(run).wf(),
        final(run).arguments() == old(run).arguments(),
        !(event is CacheLoaded || event is CacheStored) ==> final(rng).drawn() == old(rng).drawn(),
        match event {
            Event::Begin => {
                &&& final(run).stage() == Stage::Probing
                &&& action matches Action::ProbeCache(path)
                &&& path@ == old(run).cache_location()
            },
            Event::CacheFound => {
                &&& final(run).stage() == Stage::Loading
                &&& action matches Action::LoadCache(path)
                &&& path@ == old(run).cache_location()
            },
            Event::CacheMissing => {
                &&& final(run).stage() == Stage::Reading
                &&& action matches Action::ReadSource(path)
                &&& path@ == old(run).arguments().subtitle@
            },
            Event::CacheUnopened => {
                &&& final(run).stage() == Stage::Finished
                &&& action matches Action::Finish(Err(e))
                &&& e == QuoteError::CacheUnreadable
            },
            Event::CacheMalformed => {
                &&& final(run).stage() == Stage::Finished
                &&& action matches Action::Finish(Err(e))
                &&& e == QuoteError::CacheCorrupt
            },
            Event::CacheLoaded(entries) => {
                &&& final(run).stage() == Stage::Finished
                &&& final(run).records() == crate::cache::restored(entries@)
                &&& records_map(final(run).records()) == records_map(entries@)
                &&& action matches Action::Finish(quote)
                &&& is_sample_of(
                    final(run).records(),
                    old(run).arguments().quote_length as int,
                    old(rng).drawn(),
                    final(rng).drawn(),
                    quote,
                )
            },
            Event::SourceUnread => {
                &&& final(run).stage() == Stage::Finished
                &&& action matches Action::Finish(Err(e))
                &&& e == QuoteError::SourceUnreadable
            },
            Event::SourceRead(text) => {
                &&& final(run).stage() == Stage::Storing
                &&& final(run).records() == corpus_records(*filter, text@)
                &&& action matches Action::StoreCache(path, entries)
                &&& path@ == old(run).cache_location()
                &&& entries@ == corpus_records(*filter, text@)
            },
            Event::CacheUncreated => {
                &&& final(run).stage() == Stage::Finished
                &&& action matches Action::Finish(Err(e))
                &&& e == (QuoteError::CacheUnwritable { created: false })
            },
            Event::CacheUnwritten => {
                &&& final(run).stage() == Stage::Finished
                &&& action matches Action::Finish(Err(e))
                &&& e == (QuoteError::CacheUnwritable { created: true })
            },
            Event::CacheStored => {
                &&& final(run).stage() == Stage::Finished
                &&& final(run).records() == old(run).records()
                &&& action matches Action::Finish(quote)
                &&& is_sample_of(
                    old(run).records(),
                    old(run).arguments().quote_length as int,
                    old(rng).drawn(),
                    final(rng).drawn(),
                    quote,
                )
            },
        },
{
    match event {
        Event::Begin => {
            run.stage = Stage::Probing;
            Action::ProbeCache(cache_path(&run.arguments))
        },
        Event::CacheFound => {
            run.stage = Stage::Loading;
            Action::LoadCache(cache_path(&run.arguments))
        },
        Event::CacheMissing => {
            run.stage = Stage::Reading;
            Action::ReadSource(run.arguments.subtitle.clone())
        },
        Event::CacheUnopened => {
            run.stage = Stage::Finished;
            Action::Finish(Err(QuoteError::CacheUnreadable))
        },
        Event::CacheMalformed => {
            run.stage = Stage::Finished;
            Action::Finish(Err(QuoteError::CacheCorrupt))
        },
        Event::CacheLoaded(entries) => {
            run.stage = Stage::Finished;
            run.dict = load_dict(&entries);
            Action::Finish(generate_quote(&run.dict, run.arguments.quote_length, rng))
        },
        Event::SourceUnread => {
            run.stage = Stage::Finished;
            Action::Finish(Err(QuoteError::SourceUnreadable))
        },
        Event::SourceRead(text) => {
            run.stage = Stage::Storing;
            run.dict = build_dictionary(filter, text.as_str(), run.arguments.unit);
            Action::StoreCache(cache_path(&run.arguments), save_dict(&run.dict))
        },
        Event::CacheUncreated => {
            run.stage = Stage::Finished;
            Action::Finish(Err(QuoteError::CacheUnwritable { created: false }))
        },
        Event::CacheUnwritten => {
            run.stage = Stage::Finished;
            Action::Finish(Err(QuoteError::CacheUnwritable { created: true }))
        },
        Event::CacheStored => {
            run.stage = Stage::Finished;
            Action::Finish(generate_quote(&run.dict, run.arguments.quote_length, rng))
        },
    }
}

} // verus!
