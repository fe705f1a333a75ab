//! The dictionary of user-defined words and the `:` ... `;` form that fills
//! it.

use vstd::prelude::*;
use crate::error::ForthError;
use crate::text::{chars_of, literal_value, parse_i16, text_is};
use crate::token::{Token, TokenCursor, TokenView, copy_text, drop_tokens, lemma_views_push, views};

verus! {

/// One definition: a name in upper case and the tokens it stands for.
pub struct WordEntry {
    pub name: Vec<char>,
    pub body: Vec<Token>,
}

/// The dictionary: from each defined name, in upper case, to its body.
pub struct WordMap {
    entries: Vec<WordEntry>,
}

/// The mapping that a list of definitions stands for; where a name occurs
/// more than once, the later entry counts.
pub open spec fn entries_map(entries: Seq<WordEntry>) -> Map<Seq<char>, Seq<TokenView>>
    decreases entries.len(),
{
    if entries.len() == 0 {
        Map::empty()
    } else {
        entries_map(entries.drop_last()).insert(entries.last().name@, views(entries.last().body@))
    }
}

/// A name that no entry bears is not defined.
pub proof fn lemma_entries_absent(entries: Seq<WordEntry>, name: Seq<char>)
    requires
        forall|j: int| 0 <= j < entries.len() ==> (#[trigger] entries[j]).name@ != name,
    ensures
        !entries_map(entries).contains_key(name),
    decreases entries.len(),
{
    if entries.len() > 0 {
        assert forall|j: int| 0 <= j < entries.drop_last().len() implies (#[trigger] entries.drop_last()[j]).name@ != name by {
        }
        lemma_entries_absent(entries.drop_last(), name);
    }
}

/// The last entry that bears a name gives the name its body.
pub proof fn lemma_entries_present(entries: Seq<WordEntry>, i: int)
    requires
        0 <= i < entries.len(),
        forall|j: int| i < j < entries.len() ==> (#[trigger] entries[j]).name@ != entries[i].name@,
    ensures
        entries_map(entries).contains_key(entries[i].name@),
        entries_map(entries)[entries[i].name@] == views(entries[i].body@),
    decreases entries.len(),
{
    if i < entries.len() - 1 {
        assert forall|j: int| i < j < entries.drop_last().len() implies (#[trigger] entries.drop_last()[j]).name@
            != entries.drop_last()[i].name@ by {
        }
        lemma_entries_present(entries.drop_last(), i);
    }
}

/// Replacing the last entry that bears a name redefines that name and no
/// other.
pub proof fn lemma_entries_replace(entries: Seq<WordEntry>, i: int, entry: WordEntry)
    requires
        0 <= i < entries.len(),
        entry.name@ == entries[i].name@,
        forall|j: int| i < j < entries.len() ==> (#[trigger] entries[j]).name@ != entries[i].name@,
    ensures
        entries_map(entries.update(i, entry)) == entries_map(entries).insert(entry.name@, views(entry.body@)),
    decreases entries.len(),
{
    let updated = entries.update(i, entry);
    if i == entries.len() - 1 {
        assert(updated.drop_last() =~= entries.drop_last());
    } else {
        assert forall|j: int| i < j < entries.drop_last().len() implies (#[trigger] entries.drop_last()[j]).name@
            != entries.drop_last()[i].name@ by {
        }
        lemma_entries_replace(entries.drop_last(), i, entry);
        assert(updated.drop_last() =~= entries.drop_last().update(i, entry));
    }
}

impl View for WordMap {
    type V = Map<Seq<char>, Seq<TokenView>>;

    closed spec fn view(&self) -> Map<Seq<char>, Seq<TokenView>> {
        entries_map(self.entries@)
    }
}

impl WordMap {
    /// No name is stored twice.
    pub closed spec fn wf(&self) -> bool {
        forall|i: int, j: int|
            0 <= i < j < self.entries@.len() ==> (#[trigger] self.entries@[i]).name@ != (
            #[trigger] self.entries@[j]).name@
    }

    /// A dictionary without definitions.
    pub fn new() -> (words: WordMap)
        ensures
            words@ == Map::<Seq<char>, Seq<TokenView>>::empty(),
            words.wf(),
    {
        WordMap { entries: Vec::new() }
    }

    /// The place of the entry that defines `name`, if it is defined.
    fn position(&self, name: &[char]) -> (found: Option<usize>)
        ensures
            match found {
                Some(i) => i < self.entries@.len() && self.entries@[i as int].name@ == name@ && self@.contains_key(
                    name@,
                ) && self@[name@] == views(self.entries@[i as int].body@) && forall|j: int|
                    i < j < self.entries@.len() ==> (#[trigger] self.entries@[j]).name@ != name@,
                None => !self@.contains_key(name@) && forall|j: int|
                    0 <= j < self.entries@.len() ==> (#[trigger] self.entries@[j]).name@ != name@,
            },
    {
        let mut i: usize = self.entries.len();
        while i > 0
            invariant
                i <= self.entries@.len(),
                forall|j: int| i <= j < self.entries@.len() ==> (#[trigger] self.entries@[j]).name@ != name@,
            decreases i,
        {
            i -= 1;
            if text_is(self.entries[i].name.as_slice(), name) {
                proof {
                    lemma_entries_present(self.entries@, i as int);
                }
                return Some(i);
            }
        }
        proof {
            lemma_entries_absent(self.entries@, name@);
        }
        None
    }

    /// The body of the word `name`, if it is defined.
    pub fn body_of(&self, name: &[char]) -> (body: Option<&Vec<Token>>)
        ensures
            match body {
                Some(b) => self@.contains_key(name@) && views(b@) == self@[name@],
                None => !self@.contains_key(name@),
            },
    {
        match self.position(name) {
            Some(i) => Some(&self.entries[i].body),
            None => None,
        }
    }

    /// Whether the word `name`, given in upper case, is defined.
    pub fn contains(&self, name: &str) -> (defined: bool)
        ensures
            defined == self@.contains_key(name@),
    {
        let name: Vec<char> = chars_of(name);
        self.position(name.as_slice()).is_some()
    }

    /// The tokens, as written, of the body of the word `name`, given in upper
    /// case; `None` if the word is not defined.
    pub fn get(&self, name: &str) -> (body: Option<Vec<Vec<char>>>)
        ensures
            match body {
                Some(b) => self@.contains_key(name@) && b@.len() == self@[name@].len() && forall|i: int|
                    0 <= i < b@.len() ==> (#[trigger] b@[i])@ == self@[name@][i].raw,
                None => !self@.contains_key(name@),
            },
    {
        let name: Vec<char> = chars_of(name);
        match self.body_of(name.as_slice()) {
            Some(tokens) => {
                let mut texts: Vec<Vec<char>> = Vec::new();
                let mut i: usize = 0;
                while i < tokens.len()
                    invariant
                        i <= tokens@.len(),
                        texts@.len() == i,
                        forall|j: int| 0 <= j < i ==> (#[trigger] texts@[j])@ == tokens@[j].raw@,
                    decreases tokens@.len() - i,
                {
                    texts.push(copy_text(&tokens[i].raw));
                    i += 1;
                }
                Some(texts)
            },
            None => None,
        }
    }

    /// Defines or redefines the word `name`.
    pub fn insert(&mut self, name: Vec<char>, body: Vec<Token>)
        ensures
            final(self)@ == old(self)@.insert(name@, views(body@)),
            old(self).wf() ==> final(self).wf(),
    {
        let entry: WordEntry = WordEntry { name, body };
        match self.position(entry.name.as_slice()) {
            Some(i) => {
                proof {
                    lemma_entries_replace(self.entries@, i as int, entry);
                }
                self.entries.set(i, entry);
            },
            None => {
                proof {
                    assert(self.entries@.push(entry).drop_last() =~= self.entries@);
                }
                self.entries.push(entry);
            },
        }
    }
}

/// What a token of a body becomes when the body is stored: the body of the
/// word it names, if it names one, and otherwise the token itself.
pub open spec fn expansion(words: Map<Seq<char>, Seq<TokenView>>, t: TokenView) -> Seq<TokenView> {
    if words.contains_key(t.upper) {
        words[t.upper]
    } else {
        seq![t]
    }
}

/// Whether a token closes a definition.
pub open spec fn is_terminator(t: TokenView) -> bool {
    t.raw == seq![';']
}

/// The result of reading a body: the flattened body, if the closing `;` was
/// found, and the number of tokens read, the `;` included.
pub struct BodyScan {
    pub body: Option<Seq<TokenView>>,
    pub consumed: nat,
}

/// Reads tokens up to the first `;` and flattens them: each token that names
/// a defined word is replaced by that word's stored body.
pub open spec fn scan_body(words: Map<Seq<char>, Seq<TokenView>>, rest: Seq<TokenView>) -> BodyScan
    decreases rest.len(),
{
    if rest.len() == 0 {
        BodyScan { body: None, consumed: 0 }
    } else if is_terminator(rest[0]) {
        BodyScan { body: Some(Seq::empty()), consumed: 1 }
    } else {
        let tail = scan_body(words, rest.drop_first());
        BodyScan {
            body: match tail.body {
                Some(b) => Some(expansion(words, rest[0]) + b),
                None => None,
            },
            consumed: tail.consumed + 1,
        }
    }
}

/// The result of a definition: the dictionary afterwards, the number of
/// tokens read after the `:`, and whether the definition succeeded.
pub struct Definition {
    pub words: Map<Seq<char>, Seq<TokenView>>,
    pub consumed: nat,
    pub result: Result<(), ForthError>,
}

/// What the definition form does, given the tokens that follow the `:`. The
/// first is the name, which must not read as a 16-bit integer; the body runs
/// up to the first `;`. A failed definition leaves the dictionary alone.
pub open spec fn definition_outcome(words: Map<Seq<char>, Seq<TokenView>>, rest: Seq<TokenView>) -> Definition {
    if rest.len() == 0 {
        Definition { words, consumed: 0, result: Err(ForthError::MissingWordName) }
    } else if literal_value(rest[0].upper).is_some() {
        Definition { words, consumed: 1, result: Err(ForthError::InvalidWordName) }
    } else {
        let scan = scan_body(words, rest.drop_first());
        match scan.body {
            Some(body) => Definition {
                words: words.insert(rest[0].upper, body),
                consumed: scan.consumed + 1,
                result: Ok(()),
            },
            None => Definition {
                words,
                consumed: scan.consumed + 1,
                result: Err(ForthError::UnterminatedDefinition),
            },
        }
    }
}

/// A scan never reads more tokens than there are, and reads them all when
/// it finds no `;`.
pub proof fn lemma_scan_body_consumed(words: Map<Seq<char>, Seq<TokenView>>, rest: Seq<TokenView>)
    ensures
        scan_body(words, rest).consumed <= rest.len(),
        scan_body(words, rest).body.is_none() ==> scan_body(words, rest).consumed == rest.len(),
    decreases rest.len(),
{
    if rest.len() > 0 && !is_terminator(rest[0]) {
        lemma_scan_body_consumed(words, rest.drop_first());
    }
}

/// Reads the name of a new word: the next token in upper case, unless it
/// reads as a 16-bit integer.
pub fn parse_word_name(tokens: &mut TokenCursor) -> (res: Result<Vec<char>, ForthError>)
    ensures
        match res {
            Ok(name) => old(tokens).remaining().len() > 0 && name@ == old(tokens).remaining()[0].upper
                && literal_value(name@).is_none(),
            Err(e) => e == (if old(tokens).remaining().len() == 0 {
                ForthError::MissingWordName
            } else {
                ForthError::InvalidWordName
            }) && (old(tokens).remaining().len() > 0 ==> literal_value(old(tokens).remaining()[0].upper).is_some()),
        },
        final(tokens).remaining() == drop_tokens(old(tokens).remaining(), 1),
{
    match tokens.next() {
        Some(t) => {
            if parse_i16(t.upper.as_slice()).is_some() {
                Err(ForthError::InvalidWordName)
            } else {
                Ok(copy_text(&t.upper))
            }
        },
        None => {
            Err(ForthError::MissingWordName)
        },
    }
}

/// Reads the body of a new word up to the closing `;`, replacing each token
/// that names a defined word by that word's body.
pub fn parse_word_body(tokens: &mut TokenCursor, words: &WordMap) -> (res: Result<Vec<Token>, ForthError>)
    ensures
        match res {
            Ok(body) => scan_body(words@, old(tokens).remaining()).body == Some(views(body@)),
            Err(e) => e == ForthError::UnterminatedDefinition && scan_body(words@, old(tokens).remaining()).body.is_none(),
        },
        final(tokens).remaining() == drop_tokens(
            old(tokens).remaining(),
            scan_body(words@, old(tokens).remaining()).consumed,
        ),
{
    let ghost start = tokens.remaining();
    let ghost whole = scan_body(words@, start);
    let ghost mut read: nat = 0;
    let mut body: Vec<Token> = Vec::new();
    loop
        invariant
            start == old(tokens).remaining(),
            whole == scan_body(words@, start),
            read <= start.len(),
            tokens.remaining() == start.skip(read as int),
            whole.consumed == read + scan_body(words@, tokens.remaining()).consumed,
            whole.body == (match scan_body(words@, tokens.remaining()).body {
                Some(b) => Some(views(body@) + b),
                None => None,
            }),
        decreases tokens.remaining().len(),
    {
        let ghost here = tokens.remaining();
        proof {
            lemma_scan_body_consumed(words@, here);
        }
        match tokens.next() {
            Some(t) => {
                proof {
                    read = read + 1;
                }
                assert([';']@ =~= seq![';']);
                if text_is(t.raw.as_slice(), &[';']) {
                    return Ok(body);
                }
                let ghost before = views(body@);
                match words.body_of(t.upper.as_slice()) {
                    Some(known) => {
                        let mut i: usize = 0;
                        while i < known.len()
                            invariant
                                i <= known@.len(),
                                views(body@) == before + views(known@).take(i as int),
                            decreases known@.len() - i,
                        {
                            let copy: Token = known[i].duplicate();
                            proof {
                                lemma_views_push(body@, copy);
                                assert(before + views(known@).take(i + 1) =~= (before + views(known@).take(
                                    i as int,
                                )).push(copy@));
                            }
                            body.push(copy);
                            i += 1;
                        }
                    },
                    None => {
                        let copy: Token = t.duplicate();
                        proof {
                            lemma_views_push(body@, copy);
                        }
                        body.push(copy);
                    },
                }
                proof {
                    let tail = scan_body(words@, tokens.remaining());
                    if tail.body.is_some() {
                        assert(before + (expansion(words@, t@) + tail.body.unwrap()) =~= (before + expansion(
                            words@,
                            t@,
                        )) + tail.body.unwrap());
                    }
                }
            },
            None => {
                return Err(ForthError::UnterminatedDefinition);
            },
        }
    }
}

/// Handles a definition once the `:` has been read: reads the name and the
/// body from the cursor and stores the flattened body under the name.
pub fn handle_word_definition(tokens: &mut TokenCursor, word_map: &mut WordMap) -> (res: Result<(), ForthError>)
    ensures
        final(word_map)@ == definition_outcome(old(word_map)@, old(tokens).remaining()).words,
        res == definition_outcome(old(word_map)@, old(tokens).remaining()).result,
        final(tokens).remaining() == drop_tokens(
            old(tokens).remaining(),
            definition_outcome(old(word_map)@, old(tokens).remaining()).consumed,
        ),
        old(word_map).wf() ==> final(word_map).wf(),
{
    let ghost start = tokens.remaining();
    let name: Vec<char> = match parse_word_name(tokens) {
        Ok(name) => name,
        Err(e) => {
            return Err(e);
        },
    };
    proof {
        lemma_scan_body_consumed(word_map@, start.drop_first());
    }
    match parse_word_body(tokens, word_map) {
        Ok(body) => {
            word_map.insert(name, body);
            Ok(())
        },
        Err(e) => Err(e),
    }
}

} // verus!
