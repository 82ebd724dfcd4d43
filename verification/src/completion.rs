//! Completion candidates for a partially typed input, found by walking the
//! command tree.

use vstd::prelude::*;
use vstd::slice::slice_subrange;
use vstd::string::StringExecFns;
use crate::command::{
    listing_order, reader_end, Command, CommandInput, CommandLeaf, Completer, Subcommand,
};
use crate::text::{
    chars_of, first_non_whitespace, is_whitespace, is_whitespace_char, lemma_skip_whitespace,
    skip_whitespace, starts_with, string_of, trim, trim_start, trimmed_string,
};
use crate::token::{token_completes, token_match};

verus! {

/// Number of words in `s`: the positions at which a run of characters other
/// than whitespace begins.
pub open spec fn word_count(s: Seq<char>) -> nat
    decreases s.len(),
{
    if s.len() == 0 {
        0
    } else {
        let before = s.drop_last();
        if !is_whitespace(s.last()) && (before.len() == 0 || is_whitespace(before.last())) {
            word_count(before) + 1
        } else {
            word_count(before)
        }
    }
}

/// Where the last word of `s` starts, for an `s` that ends with a word: one
/// past the last whitespace character, or 0.
pub open spec fn last_word_start(s: Seq<char>) -> int
    decreases s.len(),
{
    if s.len() > 0 && !is_whitespace(s.last()) {
        last_word_start(s.drop_last())
    } else {
        s.len() as int
    }
}

/// Where a candidate comes from.
#[derive(Debug)]
pub enum CandidateSource {
    /// The token of a command: the candidate is this text.
    Token(String),
    /// A provider of an argument's values: the candidates are what it offers
    /// for the partial word.
    Provider(Completer),
}

/// One way to complete the input: a source of candidates and the partial word
/// that they complete.
#[derive(Debug)]
pub struct Completion {
    pub source: CandidateSource,
    pub partial: String,
}

/// The mathematical content of a [`CandidateSource`].
pub enum CandidateSourceModel {
    Token(Seq<char>),
    Provider(Completer),
}

/// The mathematical content of a [`Completion`].
pub struct CompletionModel {
    pub source: CandidateSourceModel,
    pub partial: Seq<char>,
}

impl View for Completion {
    type V = CompletionModel;

    open spec fn view(&self) -> CompletionModel {
        CompletionModel {
            source: match self.source {
                CandidateSource::Token(text) => CandidateSourceModel::Token(text@),
                CandidateSource::Provider(completer) => CandidateSourceModel::Provider(completer),
            },
            partial: self.partial@,
        }
    }
}

/// The models of a list of completions.
pub open spec fn completion_models(completions: Seq<Completion>) -> Seq<CompletionModel> {
    completions.map_values(|c: Completion| c@)
}

/// The input ends with a whitespace character: nothing is being typed.
pub open spec fn ends_with_whitespace(input: Seq<char>) -> bool {
    input.len() > 0 && is_whitespace(input.last())
}

/// The completion of the token itself, for an input that the token does not
/// match: the token, if it starts with what has been typed.
pub open spec fn token_completion(token: Seq<char>, input: Seq<char>) -> Seq<CompletionModel> {
    if token_completes(token, input) {
        seq![CompletionModel { source: CandidateSourceModel::Token(token), partial: trim(input) }]
    } else {
        Seq::empty()
    }
}

/// The completions of the word `word` as a value of the argument `argument`:
/// those of its provider, if it has one, for the part of the word that the
/// argument's reader accepts.
pub open spec fn argument_completions(argument: CommandInput, word: Seq<char>) -> Seq<CompletionModel> {
    match (reader_end(argument.reader, word, true), argument.completer) {
        (Some(end), Some(completer)) => seq![
            CompletionModel {
                source: CandidateSourceModel::Provider(completer),
                partial: word.take(end),
            },
        ],
        _ => Seq::empty(),
    }
}

/// The completions that a leaf offers for `input`. Once its token is matched
/// they are those of the argument at the position of the last word typed.
pub open spec fn leaf_completions(leaf: CommandLeaf, input: Seq<char>) -> Seq<CompletionModel> {
    if ends_with_whitespace(input) {
        Seq::empty()
    } else {
        match token_match(leaf.token@, input, false) {
            Some(end) => {
                let rest = input.skip(end);
                let words = word_count(rest);
                if 0 < words <= leaf.arguments@.len() {
                    argument_completions(
                        leaf.arguments@[words - 1],
                        rest.skip(last_word_start(rest)),
                    )
                } else {
                    Seq::empty()
                }
            },
            None => token_completion(leaf.token@, input),
        }
    }
}

/// Whether a group hands what follows its token on to its subcommands: when
/// whitespace follows, when nothing follows, or when the group has no token.
pub open spec fn descends(rest: Seq<char>, end: int) -> bool {
    rest.len() == 0 || is_whitespace(rest[0]) || end == 0
}

/// The completions that a command offers for `input`.
pub open spec fn command_completions(command: Command, input: Seq<char>) -> Seq<CompletionModel>
    decreases command, 0nat,
{
    match command {
        Command::Leaf(leaf) => leaf_completions(leaf, input),
        Command::Group(group) => group_completions(group, input),
    }
}

/// The completions that a group offers for `input`: once its token is matched,
/// those of all its subcommands, in the order in which they are listed, for
/// the rest of the input.
pub open spec fn group_completions(group: Subcommand, input: Seq<char>) -> Seq<CompletionModel>
    decreases group, 0nat,
{
    if ends_with_whitespace(input) {
        Seq::empty()
    } else {
        match token_match(group.token@, input, false) {
            Some(end) => if descends(input.skip(end), end) {
                children_completions(
                    group.subcommands@,
                    listing_order(group.subcommands@),
                    0,
                    trim_start(input.skip(end)),
                )
            } else {
                Seq::empty()
            },
            None => token_completion(group.token@, input),
        }
    }
}

/// The completions of the subcommands `children[order[index]]`,
/// `children[order[index + 1]]` and so on, one after another.
pub open spec fn children_completions(
    children: Seq<Command>,
    order: Seq<int>,
    index: int,
    rest: Seq<char>,
) -> Seq<CompletionModel>
    decreases children, order.len() - index,
{
    if index < 0 || index >= order.len() {
        Seq::empty()
    } else if 0 <= order[index] < children.len() {
        command_completions(children[order[index]], rest) + children_completions(
            children,
            order,
            index + 1,
            rest,
        )
    } else {
        children_completions(children, order, index + 1, rest)
    }
}

/// The number of words of `s` and the start of its last word.
pub fn count_words(s: &[char]) -> (r: (usize, usize))
    ensures
        r.0 == word_count(s@),
        r.1 == last_word_start(s@),
        r.1 <= s.len(),
{
    let mut count: usize = 0;
    let mut start: usize = 0;
    let mut i: usize = 0;
    while i < s.len()
        invariant
            i <= s.len(),
            count <= i,
            start <= i,
            count == word_count(s@.take(i as int)),
            start == last_word_start(s@.take(i as int)),
        decreases s.len() - i,
    {
        proof {
            assert(s@.take(i + 1).drop_last() == s@.take(i as int));
        }
        if is_whitespace_char(s[i]) {
            start = i + 1;
        } else if i == 0 || is_whitespace_char(s[i - 1]) {
            count += 1;
        }
        i += 1;
    }
    proof {
        assert(s@.take(i as int) == s@);
    }
    (count, start)
}

impl CommandInput {
    /// The way to complete `word` as a value of this argument, if there is one.
    pub fn completions(&self, word: &[char]) -> (r: Vec<Completion>)
        ensures
            completion_models(r@) == argument_completions(*self, word@),
    {
        let mut found: Vec<Completion> = Vec::new();
        match (self.read_end_index_from(word, true), self.completer) {
            (Some(end), Some(completer)) => {
                let partial = string_of(slice_subrange(word, 0, end));
                proof {
                    assert(word@.subrange(0, end as int) == word@.take(end as int));
                }
                found.push(Completion { source: CandidateSource::Provider(completer), partial });
            },
            _ => {},
        }
        proof {
            assert(completion_models(found@) =~= argument_completions(*self, word@));
        }
        found
    }
}

/// The token as a candidate for `input`, if it starts with what was typed.
fn complete_token(token: &crate::token::CommandToken, input: &[char]) -> (r: Vec<Completion>)
    ensures
        completion_models(r@) == token_completion(token@, input@),
{
    let mut found: Vec<Completion> = Vec::new();
    if token.completes(input) {
        found.push(
            Completion {
                source: CandidateSource::Token(token.to_string()),
                partial: trimmed_string(input),
            },
        );
    }
    proof {
        assert(completion_models(found@) =~= token_completion(token@, input@));
    }
    found
}

/// Whether `input` ends with a whitespace character.
fn ends_in_whitespace(input: &[char]) -> (r: bool)
    ensures
        r == ends_with_whitespace(input@),
{
    input.len() > 0 && is_whitespace_char(input[input.len() - 1])
}

impl CommandLeaf {
    /// The ways to complete `input` at this leaf.
    pub fn compute_completions(&self, input: &[char]) -> (r: Vec<Completion>)
        ensures
            completion_models(r@) == leaf_completions(*self, input@),
    {
        if ends_in_whitespace(input) {
            let none: Vec<Completion> = Vec::new();
            proof {
                assert(completion_models(none@) =~= Seq::<CompletionModel>::empty());
            }
            return none;
        }
        match self.token.match_(input, false) {
            Some((_matched, rest, _end)) => {
                let (words, start) = count_words(rest);
                if 0 < words && words <= self.arguments.len() {
                    let word = slice_subrange(rest, start, rest.len());
                    proof {
                        assert(word@ == rest@.skip(start as int));
                    }
                    self.arguments[words - 1].completions(word)
                } else {
                    let none: Vec<Completion> = Vec::new();
                    proof {
                        assert(completion_models(none@) =~= Seq::<CompletionModel>::empty());
                    }
                    none
                }
            },
            None => complete_token(&self.token, input),
        }
    }
}

impl Subcommand {
    /// The ways to complete `input` within this group.
    pub fn compute_completions(&self, input: &[char]) -> (r: Vec<Completion>)
        ensures
            completion_models(r@) == group_completions(*self, input@),
        decreases self, 0nat,
    {
        let mut found: Vec<Completion> = Vec::new();
        proof {
            assert(completion_models(found@) =~= Seq::<CompletionModel>::empty());
        }
        if ends_in_whitespace(input) {
            return found;
        }
        match self.token.match_(input, false) {
            Some((_matched, rest, end)) => {
                if rest.len() == 0 || is_whitespace_char(rest[0]) || end == 0 {
                    let start = first_non_whitespace(rest, 0);
                    let partial = slice_subrange(rest, start, rest.len());
                    proof {
                        assert(partial@ == trim_start(rest@));
                    }
                    let order = self.listing_order();
                    let ghost listed = listing_order(self.subcommands@);
                    let ghost whole = children_completions(self.subcommands@, listed, 0, partial@);
                    let mut index: usize = 0;
                    while index < order.len()
                        invariant
                            index <= order@.len(),
                            order@.map_values(|i: usize| i as int) == listed,
                            forall|k: int|
                                0 <= k < order@.len() ==> (#[trigger] order@[k])
                                    < self.subcommands@.len(),
                            completion_models(found@) + children_completions(
                                self.subcommands@,
                                listed,
                                index as int,
                                partial@,
                            ) == whole,
                        decreases order@.len() - index,
                    {
                        proof {
                            assert(listed[index as int] == order@[index as int] as int);
                        }
                        let ghost before = completion_models(found@);
                        let mut more = self.subcommands[order[index]].compute_completions(partial);
                        let ghost added = completion_models(more@);
                        found.append(&mut more);
                        proof {
                            assert(completion_models(found@) =~= before + added);
                            assert((before + added) + children_completions(
                                self.subcommands@,
                                listed,
                                index + 1,
                                partial@,
                            ) =~= before + (added + children_completions(
                                self.subcommands@,
                                listed,
                                index + 1,
                                partial@,
                            )));
                        }
                        index += 1;
                    }
                    proof {
                        assert(completion_models(found@) + Seq::<CompletionModel>::empty()
                            =~= completion_models(found@));
                    }
                    found
                } else {
                    found
                }
            },
            None => complete_token(&self.token, input),
        }
    }
}

impl Command {
    /// The ways to complete `input` at this node.
    pub fn compute_completions(&self, input: &[char]) -> (r: Vec<Completion>)
        ensures
            completion_models(r@) == command_completions(*self, input@),
        decreases self, 1nat,
    {
        match self {
            Command::Leaf(leaf) => leaf.compute_completions(input),
            Command::Group(group) => group.compute_completions(input),
        }
    }
}

/// No completion in `completions` offers a token that is the partial word
/// itself.
pub open spec fn tokens_differ(completions: Seq<CompletionModel>) -> bool {
    forall|i: int|
        0 <= i < completions.len() ==> ((#[trigger] completions[i]).source matches CandidateSourceModel::Token(
            text,
        ) ==> text != completions[i].partial)
}

proof fn lemma_token_completion_differs(token: Seq<char>, input: Seq<char>)
    requires
        token_match(token, input, false) is None,
    ensures
        tokens_differ(token_completion(token, input)),
{
    if token_completes(token, input) && token == trim(input) {
        let start = skip_whitespace(input, 0);
        lemma_skip_whitespace(input, 0);
        let rest = input.skip(start);
        crate::text::lemma_content_end(rest);
        let end = crate::text::content_end(rest);
        assert(trim(input) == rest.take(end));
        assert(rest.take(token.len() as int) == token);
        assert(starts_with(rest, token));
        crate::token::lemma_token_after_whitespace_matches(token, input, start);
    }
}

/// A token is never offered as a completion of itself: in the completions of
/// any command for any input, a candidate that is a token differs from the
/// partial word that it completes.
pub proof fn lemma_token_candidates_differ(command: Command, input: Seq<char>)
    ensures
        tokens_differ(command_completions(command, input)),
    decreases command, 0nat,
{
    match command {
        Command::Leaf(leaf) => {
            if !ends_with_whitespace(input) && token_match(leaf.token@, input, false) is None {
                lemma_token_completion_differs(leaf.token@, input);
            }
        },
        Command::Group(group) => {
            if !ends_with_whitespace(input) {
                match token_match(group.token@, input, false) {
                    Some(end) => {
                        if descends(input.skip(end), end) {
                            lemma_children_candidates_differ(
                                group.subcommands@,
                                listing_order(group.subcommands@),
                                0,
                                trim_start(input.skip(end)),
                            );
                        }
                    },
                    None => {
                        lemma_token_completion_differs(group.token@, input);
                    },
                }
            }
        },
    }
}

proof fn lemma_children_candidates_differ(
    children: Seq<Command>,
    order: Seq<int>,
    index: int,
    rest: Seq<char>,
)
    ensures
        tokens_differ(children_completions(children, order, index, rest)),
    decreases children, order.len() - index,
{
    if 0 <= index < order.len() {
        if 0 <= order[index] < children.len() {
            lemma_token_candidates_differ(children[order[index]], rest);
        }
        lemma_children_candidates_differ(children, order, index + 1, rest);
    }
}

/// The texts of a list of strings.
pub open spec fn texts(strings: Seq<String>) -> Seq<Seq<char>> {
    strings.map_values(|s: String| s@)
}

/// The texts other than `partial`.
pub open spec fn other_than(partial: Seq<char>) -> spec_fn(Seq<char>) -> bool {
    |text: Seq<char>| text != partial
}

/// The texts that start with `partial`.
pub open spec fn extending(partial: Seq<char>) -> spec_fn(Seq<char>) -> bool {
    |text: Seq<char>| starts_with(text, partial)
}

/// Drops from what a provider offered for `partial` every candidate that is
/// `partial` itself, and keeps the others in their order.
pub fn filter_completions(candidates: Vec<String>, partial: &str) -> (r: Vec<String>)
    ensures
        texts(r@) == texts(candidates@).filter(other_than(partial@)),
        forall|i: int| 0 <= i < r@.len() ==> (#[trigger] r@[i])@ != partial@,
{
    without_partial(&candidates, partial)
}

/// The candidates of `candidates` other than `partial`, in their order.
pub fn without_partial(candidates: &Vec<String>, partial: &str) -> (r: Vec<String>)
    ensures
        texts(r@) == texts(candidates@).filter(other_than(partial@)),
        forall|i: int| 0 <= i < r@.len() ==> (#[trigger] r@[i])@ != partial@,
{
    let wanted = chars_of(partial);
    let mut kept: Vec<String> = Vec::new();
    let mut i: usize = 0;
    proof {
        reveal(Seq::filter);
        assert(texts(candidates@).take(0) =~= Seq::<Seq<char>>::empty());
        assert(texts(kept@) =~= Seq::<Seq<char>>::empty());
    }
    while i < candidates.len()
        invariant
            i <= candidates.len(),
            wanted@ == partial@,
            texts(kept@) == texts(candidates@).take(i as int).filter(other_than(partial@)),
            forall|k: int| 0 <= k < kept@.len() ==> (#[trigger] kept@[k])@ != partial@,
        decreases candidates.len() - i,
    {
        let ghost before = texts(kept@);
        let text = chars_of(candidates[i].as_str());
        let same = text.len() == wanted.len() && crate::token::has_prefix_at(
            text.as_slice(),
            0,
            wanted.as_slice(),
        );
        proof {
            assert(text@.skip(0) == text@);
            if text@.len() == wanted@.len() {
                assert(text@.take(text@.len() as int) == text@);
            }
            reveal(Seq::filter);
            assert(same == (candidates@[i as int]@ == partial@));
            assert(texts(candidates@).take(i + 1).drop_last() == texts(candidates@).take(i as int));
            assert(texts(candidates@).take(i + 1).last() == candidates@[i as int]@);
        }
        if !same {
            kept.push(candidates[i].clone());
            proof {
                assert(texts(kept@) =~= before.push(candidates@[i as int]@));
            }
        }
        i += 1;
    }
    proof {
        assert(texts(candidates@).take(i as int) == texts(candidates@));
    }
    kept
}

/// What a list of providers' offers holds: for each offer the texts offered.
pub open spec fn offer_texts(offers: Seq<Vec<String>>) -> Seq<Seq<Seq<char>>> {
    offers.map_values(|offer: Vec<String>| texts(offer@))
}

/// The offer made for the completion with number `index`; none where the list
/// of offers is too short.
pub open spec fn offer_for(offers: Seq<Seq<Seq<char>>>, index: int) -> Seq<Seq<char>> {
    if 0 <= index < offers.len() {
        offers[index]
    } else {
        Seq::empty()
    }
}

/// The candidates that one completion contributes: the token itself, or what
/// its provider offered for the partial word, less the partial word.
pub open spec fn completion_candidates(completion: CompletionModel, offer: Seq<Seq<char>>) -> Seq<
    Seq<char>,
> {
    match completion.source {
        CandidateSourceModel::Token(text) => seq![text],
        CandidateSourceModel::Provider(_) => offer.filter(other_than(completion.partial)),
    }
}

/// The candidates of the first `count` completions, one completion after
/// another, given what the providers offered for each.
pub open spec fn candidate_texts(
    completions: Seq<CompletionModel>,
    offers: Seq<Seq<Seq<char>>>,
    count: int,
) -> Seq<Seq<char>>
    decreases count,
{
    if count <= 0 {
        Seq::empty()
    } else {
        candidate_texts(completions, offers, count - 1) + completion_candidates(
            completions[count - 1],
            offer_for(offers, count - 1),
        )
    }
}

/// The completion contributes the candidate `text`, and `text` is not its
/// partial word.
pub open spec fn contributes(completion: CompletionModel, offer: Seq<Seq<char>>, text: Seq<char>) -> bool {
    completion_candidates(completion, offer).contains(text) && text != completion.partial
}

/// One of the first `count` completions contributes `text`, which is not the
/// partial word of that completion.
pub open spec fn contributed(
    text: Seq<char>,
    completions: Seq<CompletionModel>,
    offers: Seq<Seq<Seq<char>>>,
    count: int,
) -> bool {
    exists|k: int|
        0 <= k < count && #[trigger] contributes(completions[k], offer_for(offers, k), text)
}

/// Every candidate in `list` is contributed by one of the first `count`
/// completions and differs from the partial word of that completion.
pub open spec fn candidates_differ(
    list: Seq<Seq<char>>,
    completions: Seq<CompletionModel>,
    offers: Seq<Seq<Seq<char>>>,
    count: int,
) -> bool {
    forall|i: int| 0 <= i < list.len() ==> contributed(#[trigger] list[i], completions, offers, count)
}

proof fn lemma_candidate_texts_differ(
    completions: Seq<CompletionModel>,
    offers: Seq<Seq<Seq<char>>>,
    count: int,
)
    requires
        0 <= count <= completions.len(),
        tokens_differ(completions),
    ensures
        candidates_differ(candidate_texts(completions, offers, count), completions, offers, count),
    decreases count,
{
    if count > 0 {
        lemma_candidate_texts_differ(completions, offers, count - 1);
        let before = candidate_texts(completions, offers, count - 1);
        let offer = offer_for(offers, count - 1);
        let last = completion_candidates(completions[count - 1], offer);
        let list = candidate_texts(completions, offers, count);
        assert(list == before + last);
        assert forall|i: int| 0 <= i < list.len() implies contributed(
            #[trigger] list[i],
            completions,
            offers,
            count,
        ) by {
            if i < before.len() {
                assert(list[i] == before[i]);
                assert(contributed(before[i], completions, offers, count - 1));
                let k = choose|k: int|
                    0 <= k < count - 1 && #[trigger] contributes(
                        completions[k],
                        offer_for(offers, k),
                        before[i],
                    );
                assert(contributes(completions[k], offer_for(offers, k), list[i]));
            } else {
                let j = i - before.len();
                assert(list[i] == last[j]);
                assert(last.contains(list[i]));
                match completions[count - 1].source {
                    CandidateSourceModel::Token(text) => {
                        assert(last[j] == text);
                        assert(text != completions[count - 1].partial);
                    },
                    CandidateSourceModel::Provider(_) => {
                        let wanted = other_than(completions[count - 1].partial);
                        offer.lemma_filter_pred(wanted, j);
                    },
                }
                assert(contributes(completions[count - 1], offer, list[i]));
            }
        }
    }
}

/// No candidate is the partial word that it completes: whatever the providers
/// offer, every candidate for an input, in the whole list that is handed to
/// the line editor, differs from the partial word of the completion that
/// contributed it.
pub proof fn lemma_no_candidate_is_its_partial(
    command: Command,
    input: Seq<char>,
    offers: Seq<Seq<Seq<char>>>,
)
    ensures
        candidates_differ(
            candidate_texts(
                command_completions(command, input),
                offers,
                command_completions(command, input).len() as int,
            ),
            command_completions(command, input),
            offers,
            command_completions(command, input).len() as int,
        ),
{
    lemma_token_candidates_differ(command, input);
    let completions = command_completions(command, input);
    lemma_candidate_texts_differ(completions, offers, completions.len() as int);
}

/// Puts together the candidates for the line editor: for each completion in
/// order the token that it offers, or what its provider offered for its
/// partial word, less the partial word itself. `offers` holds for each
/// completion what its provider offered; the entry of a completion that
/// offers a token is not read.
pub fn candidates(completions: &Vec<Completion>, offers: &Vec<Vec<String>>) -> (r: Vec<String>)
    ensures
        texts(r@) == candidate_texts(
            completion_models(completions@),
            offer_texts(offers@),
            completions@.len() as int,
        ),
{
    let ghost models = completion_models(completions@);
    let ghost offered = offer_texts(offers@);
    let mut list: Vec<String> = Vec::new();
    let mut i: usize = 0;
    proof {
        assert(texts(list@) =~= candidate_texts(models, offered, 0));
    }
    while i < completions.len()
        invariant
            i <= completions.len(),
            models == completion_models(completions@),
            offered == offer_texts(offers@),
            texts(list@) == candidate_texts(models, offered, i as int),
        decreases completions.len() - i,
    {
        let ghost before = texts(list@);
        let completion = &completions[i];
        proof {
            assert(models[i as int] == completion@);
            if i < offers@.len() {
                assert(offered[i as int] == texts(offers@[i as int]@));
            }
        }
        match &completion.source {
            CandidateSource::Token(text) => {
                list.push(text.clone());
                proof {
                    assert(texts(list@) =~= before + seq![text@]);
                }
            },
            CandidateSource::Provider(_) => {
                if i < offers.len() {
                    let mut kept = without_partial(&offers[i], completion.partial.as_str());
                    let ghost added = texts(kept@);
                    list.append(&mut kept);
                    proof {
                        assert(texts(list@) =~= before + added);
                    }
                } else {
                    proof {
                        reveal(Seq::filter);
                        assert(Seq::<Seq<char>>::empty().filter(
                            other_than(completion.partial@),
                        ) =~= Seq::<Seq<char>>::empty());
                        assert(texts(list@) =~= before + Seq::<Seq<char>>::empty());
                    }
                }
            },
        }
        i += 1;
    }
    list
}

/// Keeps of `names` those that start with `partial`, in their order.
pub fn filter_prefix(names: Vec<String>, partial: &str) -> (r: Vec<String>)
    ensures
        texts(r@) == texts(names@).filter(extending(partial@)),
{
    let wanted = chars_of(partial);
    let mut kept: Vec<String> = Vec::new();
    let mut i: usize = 0;
    proof {
        reveal(Seq::filter);
        assert(texts(names@).take(0) =~= Seq::<Seq<char>>::empty());
        assert(texts(kept@) =~= Seq::<Seq<char>>::empty());
    }
    while i < names.len()
        invariant
            i <= names.len(),
            wanted@ == partial@,
            texts(kept@) == texts(names@).take(i as int).filter(extending(partial@)),
        decreases names.len() - i,
    {
        let ghost before = texts(kept@);
        let text = chars_of(names[i].as_str());
        let starts = crate::token::has_prefix_at(text.as_slice(), 0, wanted.as_slice());
        proof {
            reveal(Seq::filter);
            assert(text@.skip(0) == text@);
            assert(texts(names@).take(i + 1).drop_last() == texts(names@).take(i as int));
            assert(texts(names@).take(i + 1).last() == names@[i as int]@);
        }
        if starts {
            kept.push(names[i].clone());
            proof {
                assert(texts(kept@) =~= before.push(names@[i as int]@));
            }
        }
        i += 1;
    }
    proof {
        assert(texts(names@).take(i as int) == texts(names@));
    }
    kept
}

/// What is shown after the cursor while typing: when exactly one candidate
/// is left and it is no shorter than the last word typed, the candidate less
/// as many characters as that word has.
pub open spec fn hint_of(candidates: Seq<Seq<char>>, last_word: Seq<char>) -> Option<Seq<char>> {
    if candidates.len() == 1 && candidates[0].len() >= last_word.len() {
        Some(candidates[0].skip(last_word.len() as int))
    } else {
        None
    }
}

/// The hint for the last word typed, given the candidates that complete it.
pub fn hint_for(candidates: &Vec<String>, last_word: &str) -> (r: Option<String>)
    ensures
        match r {
            Some(hint) => hint_of(texts(candidates@), last_word@) == Some(hint@),
            None => hint_of(texts(candidates@), last_word@) is None,
        },
{
    if candidates.len() != 1 {
        return None;
    }
    let candidate = chars_of(candidates[0].as_str());
    let typed = last_word.unicode_len();
    if candidate.len() < typed {
        None
    } else {
        let tail = slice_subrange(candidate.as_slice(), typed, candidate.len());
        proof {
            assert(tail@ == candidate@.skip(typed as int));
        }
        Some(string_of(tail))
    }
}

impl Subcommand {
    /// What the line editor is offered for the line `line` with the cursor at
    /// `pos`: where the word under completion starts, and the ways to complete
    /// the line. A blank line is offered nothing.
    pub fn complete(&self, line: &[char], pos: usize) -> (r: (usize, Vec<Completion>))
        requires
            pos <= line.len(),
        ensures
            r.0 <= pos,
            crate::text::is_blank(line@) ==> r.0 == 0 && r.1@.len() == 0,
            !crate::text::is_blank(line@) ==> r.0 == last_word_start(line@.take(pos as int))
                && completion_models(r.1@) == group_completions(*self, line@),
    {
        if crate::text::is_blank_text(line) {
            (0, Vec::new())
        } else {
            let before_cursor = slice_subrange(line, 0, pos);
            proof {
                assert(before_cursor@ == line@.take(pos as int));
            }
            let (_words, start) = count_words(before_cursor);
            (start, self.compute_completions(line))
        }
    }
}

/// A hint as it is shown: in a pale colour.
pub fn highlight_hint(hint: &str) -> (r: String)
    ensures
        r@ == "\x1b[37m"@ + hint@ + "\x1b[0m"@,
{
    let mut text = String::new();
    text.append("\x1b[37m");
    text.append(hint);
    text.append("\x1b[0m");
    proof {
        assert(text@ =~= "\x1b[37m"@ + hint@ + "\x1b[0m"@);
    }
    text
}

} // verus!
