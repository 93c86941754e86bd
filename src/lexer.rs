use vstd::prelude::*;

use crate::rule::{prefix_match, Rule};
use crate::text::chars_of;
use crate::token::{advance, chars_after_newline, count_newlines, Location, Position, Token};

verus! {

/// Why lexing stopped.
#[derive(Debug, Clone, PartialEq, Eq)]
pub enum LexerError {
    /// The named file could not be read.
    FileNotFound(String),
    /// No rule matches the text at this position.
    InvalidToken(Position),
    /// A token rule matched no text at this position: the stream would give
    /// this empty token again and again, so a whole run stops here.
    EmptyToken(Position),
}

/// The match of the rule text `p` at the start of `text` that counts: any
/// match for a token rule, only a non-empty one where `nonempty` is set.
pub open spec fn counted_match(p: Seq<char>, text: Seq<char>, nonempty: bool) -> Option<(Seq<char>, Seq<char>)> {
    match prefix_match(p, text) {
        Some((m, b)) => if nonempty && m.len() == 0 {
            None
        } else {
            Some((m, b))
        },
        None => None,
    }
}

/// The first rule, from index `i` on, whose match at the start of `text`
/// counts: its index, the matched text and the text after it.
pub open spec fn first_match(rules: Seq<Rule>, text: Seq<char>, i: nat, nonempty: bool) -> Option<(nat, Seq<char>, Seq<char>)>
    decreases rules.len() - i,
{
    if i >= rules.len() {
        None
    } else {
        match counted_match(rules[i as int].spec_source(), text, nonempty) {
            Some((m, b)) => Some((i, m, b)),
            None => first_match(rules, text, i + 1, nonempty),
        }
    }
}

/// The skip phase: ignore rules are tried in order, and after each match the
/// scan starts over from the first one, until a full pass matches nothing.
/// Gives the text left and the position reached. An ignore rule that
/// matches only empty text is passed over: it skips nothing, and restarting
/// the scan after it would find the same empty match without end.
pub open spec fn skip_spec(ignore: Seq<Rule>, text: Seq<char>, pos: Position) -> (Seq<char>, Position)
    decreases text.len(),
{
    match first_match(ignore, text, 0, true) {
        Some((_, m, b)) => if b.len() < text.len() {
            skip_spec(ignore, b, advance(pos, m))
        } else {
            (text, pos)
        },
        None => (text, pos),
    }
}

/// The outcome of one step of the token stream.
pub enum Step {
    /// No input is left after the skip phase.
    End,
    /// Rule `rule` matched `symbol`; the token spans `start` to `end`, and
    /// `rest` is the input left.
    Token { rule: nat, name: Seq<char>, symbol: Seq<char>, start: Position, end: Position, rest: Seq<char> },
    /// Input is left and no rule matches it at this position.
    Invalid(Position),
}

/// One step of the token stream over `text`, from position `pos`.
pub open spec fn step_spec(lexer: Lexer, text: Seq<char>, pos: Position) -> Step {
    let (t, p) = skip_spec(lexer.spec_ignore_rules(), text, pos);
    if t.len() == 0 {
        Step::End
    } else {
        match first_match(lexer.spec_rules(), t, 0, false) {
            Some((i, m, b)) => Step::Token {
                rule: i,
                name: lexer.spec_rules()[i as int].spec_name(),
                symbol: m,
                start: pos,
                end: advance(p, m),
                rest: b,
            },
            None => Step::Invalid(p),
        }
    }
}

/// A token as the lexer sees it: rule name, matched text, start and end.
pub type TokenModel = (Seq<char>, Seq<char>, Position, Position);

/// The whole token sequence of `text` from `pos`, or the error where the
/// first text that no rule matches, or the first empty token, stands.
pub open spec fn lex_spec(lexer: Lexer, text: Seq<char>, pos: Position) -> Result<Seq<TokenModel>, LexerError>
    decreases text.len(),
{
    match step_spec(lexer, text, pos) {
        Step::End => Ok(seq![]),
        Step::Invalid(p) => Err(LexerError::InvalidToken(p)),
        Step::Token { rule, name, symbol, start, end, rest } => if symbol.len() == 0 {
            Err(LexerError::EmptyToken(end))
        } else if rest.len() < text.len() {
            match lex_spec(lexer, rest, end) {
                Ok(ts) => Ok(seq![(name, symbol, start, end)] + ts),
                Err(e) => Err(e),
            }
        } else {
            Ok(seq![])
        },
    }
}

pub open spec fn token_model(t: Token) -> TokenModel {
    (t.name@, t.symbol@, t.loc.start, t.loc.end)
}

pub open spec fn token_models(ts: Seq<Token>) -> Seq<TokenModel> {
    ts.map_values(|t: Token| token_model(t))
}

pub proof fn lemma_first_match_shape(rules: Seq<Rule>, text: Seq<char>, i: nat, nonempty: bool)
    ensures
        first_match(rules, text, i, nonempty) matches Some((j, m, b)) ==> {
            &&& i <= j < rules.len()
            &&& nonempty ==> m.len() > 0
            &&& m + b == text
            &&& prefix_match(rules[j as int].spec_source(), text) == Some((m, b))
        },
    decreases rules.len() - i,
{
    if i < rules.len() {
        if counted_match(rules[i as int].spec_source(), text, nonempty) is None {
            lemma_first_match_shape(rules, text, i + 1, nonempty);
        } else {
            let (m, b) = prefix_match(rules[i as int].spec_source(), text)->Some_0;
            let (a, m2, b2) = crate::rule::regex_find(rules[i as int].spec_source(), text)->Some_0;
            assert(a + m2 + b2 == text);
            assert(a =~= seq![]);
            assert(m + b =~= text);
        }
    }
}

pub proof fn lemma_skip_suffix(ignore: Seq<Rule>, text: Seq<char>, pos: Position)
    requires
        pos.idx + text.len() <= usize::MAX,
    ensures
        skip_spec(ignore, text, pos).0.len() <= text.len(),
        skip_spec(ignore, text, pos).1.idx == pos.idx + (text.len() - skip_spec(ignore, text, pos).0.len()),
    decreases text.len(),
{
    lemma_first_match_shape(ignore, text, 0, true);
    if let Some((_, m, b)) = first_match(ignore, text, 0, true) {
        if b.len() < text.len() {
            lemma_skip_suffix(ignore, b, advance(pos, m));
        }
    }
}

/// An ordered list of token rules, whose names are the terminals, and an
/// ordered list of rules for text to skip.
#[derive(Clone)]
pub struct Lexer {
    rules: Vec<Rule>,
    ignore_rules: Vec<Rule>,
}

impl Lexer {
    pub closed spec fn spec_rules(&self) -> Seq<Rule> {
        self.rules@
    }

    pub closed spec fn spec_ignore_rules(&self) -> Seq<Rule> {
        self.ignore_rules@
    }

    pub fn new(rules: Vec<Rule>, ignore_rules: Vec<Rule>) -> (r: Lexer)
        ensures
            r.spec_rules() == rules@,
            r.spec_ignore_rules() == ignore_rules@,
    {
        Lexer { rules, ignore_rules }
    }

    pub fn rules(&self) -> (r: &Vec<Rule>)
        ensures
            r@ == self.spec_rules(),
    {
        &self.rules
    }

    pub fn ignore_rules(&self) -> (r: &Vec<Rule>)
        ensures
            r@ == self.spec_ignore_rules(),
    {
        &self.ignore_rules
    }
}

/// The first rule of `rules` whose match at the start of `text` counts.
fn first_rule_match(rules: &Vec<Rule>, text: &String, nonempty: bool) -> (r: Option<(usize, String, String)>)
    ensures
        match r {
            Some((i, m, b)) => first_match(rules@, text@, 0, nonempty) == Some((i as nat, m@, b@)),
            None => first_match(rules@, text@, 0, nonempty) is None,
        },
{
    let mut i: usize = 0;
    while i < rules.len()
        invariant
            i <= rules@.len(),
            first_match(rules@, text@, 0, nonempty) == first_match(rules@, text@, i as nat, nonempty),
        decreases rules@.len() - i,
    {
        match rules[i].match_prefix(text.as_str()) {
            Some((m, b)) => {
                if !(nonempty && m.as_str().is_empty()) {
                    return Some((i, m, b));
                }
            },
            None => {},
        }
        i = i + 1;
    }
    None
}

/// A forward-only cursor over one input: each call of `next_token` skips
/// ignorable text and yields the next token.
pub struct LexerStream<'a> {
    lexer: &'a Lexer,
    input: String,
    loc: Location,
    done: bool,
}

impl<'a> LexerStream<'a> {
    pub closed spec fn spec_lexer(&self) -> Lexer {
        *self.lexer
    }

    /// The input not consumed yet.
    pub closed spec fn spec_rest(&self) -> Seq<char> {
        self.input@
    }

    /// The position reached so far.
    pub closed spec fn spec_pos(&self) -> Position {
        self.loc.end
    }

    /// Where the token being read began.
    pub closed spec fn spec_start(&self) -> Position {
        self.loc.start
    }

    pub closed spec fn spec_filename(&self) -> Option<String> {
        self.loc.filename
    }

    /// Whether the stream has reported invalid input and stopped.
    pub closed spec fn spec_done(&self) -> bool {
        self.done
    }

    pub open spec fn wf(&self) -> bool {
        &&& self.spec_pos().wf()
        &&& self.spec_pos().idx + self.spec_rest().len() < usize::MAX
    }

    /// A stream over `input` from its start, naming `filename` in each token.
    pub fn new(lexer: &'a Lexer, input: &str, filename: Option<String>) -> (r: LexerStream<'a>)
        requires
            input@.len() < usize::MAX,
        ensures
            r.wf(),
            r.spec_lexer() == *lexer,
            r.spec_rest() == input@,
            r.spec_pos() == Position::start(),
            r.spec_filename() == filename,
            !r.spec_done(),
    {
        LexerStream {
            lexer,
            input: input.to_owned(),
            loc: Location { filename, start: Position::default(), end: Position::default() },
            done: false,
        }
    }

    /// Consumes the matched text `m`, which starts the remaining input and is
    /// followed there by `rest`: the position moves past `m` and `rest` is
    /// what remains.
    pub fn update_pos(&mut self, m: &String, rest: String)
        requires
            old(self).spec_pos().wf(),
            old(self).spec_pos().idx + m@.len() < usize::MAX,
            old(self).spec_rest() == m@ + rest@,
        ensures
            final(self).spec_pos() == advance(old(self).spec_pos(), m@),
            final(self).spec_pos().wf(),
            final(self).spec_rest() == rest@,
            final(self).spec_rest() == old(self).spec_rest().skip(m@.len() as int),
            final(self).spec_lexer() == old(self).spec_lexer(),
            final(self).spec_filename() == old(self).spec_filename(),
            final(self).spec_done() == old(self).spec_done(),
            final(self).spec_start() == old(self).spec_start(),
    {
        let cs = chars_of(m.as_str());
        let mut newlines: usize = 0;
        let mut seen: bool = false;
        let mut after: usize = 0;
        let mut i: usize = 0;
        while i < cs.len()
            invariant
                cs@ == m@,
                i <= cs@.len(),
                newlines <= i,
                after <= i,
                seen ==> after < i,
                count_newlines(cs@.take(i as int)) == newlines,
                chars_after_newline(cs@.take(i as int)) == (if seen { Some(after as nat) } else { None }),
            decreases cs@.len() - i,
        {
            assert(cs@.take(i as int + 1).drop_last() =~= cs@.take(i as int));
            assert(cs@.take(i as int + 1).last() == cs@[i as int]);
            if cs[i] == '\n' {
                newlines = newlines + 1;
                seen = true;
                after = 0;
            } else if seen {
                after = after + 1;
            }
            i = i + 1;
        }
        assert(cs@.take(cs@.len() as int) =~= m@);
        let len = cs.len();
        let end = self.loc.end;
        let col = if seen { after + 1 } else { end.col + len };
        self.loc.end = Position { idx: end.idx + len, line: end.line + newlines, col };
        self.input = rest;
        assert((m@ + rest@).skip(m@.len() as int) =~= rest@);
    }

    /// The next token, or `None` at the end of the input or once the stream
    /// has stopped. The first token rule that matches at the cursor wins,
    /// even with an empty match, which leaves the position where it is.
    /// Where no rule matches, the error gives the position of the unmatched
    /// text and the stream stops.
    pub fn next_token(&mut self) -> (r: Option<Result<Token, LexerError>>)
        requires
            old(self).wf(),
        ensures
            final(self).wf(),
            final(self).spec_lexer() == old(self).spec_lexer(),
            final(self).spec_filename() == old(self).spec_filename(),
            old(self).spec_done() ==> r is None && final(self).spec_done(),
            !old(self).spec_done() ==> match step_spec(old(self).spec_lexer(), old(self).spec_rest(), old(self).spec_pos()) {
                Step::End => {
                    &&& r is None
                    &&& final(self).spec_done()
                    &&& final(self).spec_rest().len() == 0
                },
                Step::Invalid(p) => {
                    &&& r matches Some(Err(LexerError::InvalidToken(q))) && q == p
                    &&& final(self).spec_done()
                },
                Step::Token { rule, name, symbol, start, end, rest } => {
                    &&& r matches Some(Ok(t)) && token_model(t) == (name, symbol, start, end)
                        && t.loc.filename == old(self).spec_filename()
                    &&& !final(self).spec_done()
                    &&& final(self).spec_rest() == rest
                    &&& final(self).spec_pos() == end
                    &&& rest.len() + symbol.len() <= old(self).spec_rest().len()
                },
            },
    {
        if self.done {
            return None;
        }
        let ghost text0 = self.input@;
        let ghost pos0 = self.loc.end;
        self.loc.start = self.loc.end;
        let mut skipping = true;
        while skipping
            invariant
                self.wf(),
                !self.done,
                self.spec_lexer() == old(self).spec_lexer(),
                self.spec_filename() == old(self).spec_filename(),
                self.loc.start == pos0,
                pos0.idx + text0.len() < usize::MAX,
                skip_spec(self.lexer.spec_ignore_rules(), text0, pos0)
                    == skip_spec(self.lexer.spec_ignore_rules(), self.input@, self.loc.end),
                !skipping ==> first_match(self.lexer.spec_ignore_rules(), self.input@, 0, true) is None,
                self.input@.len() <= text0.len(),
            decreases self.input@.len() + if skipping { 1int } else { 0int },
        {
            match first_rule_match(&self.lexer.ignore_rules, &self.input, true) {
                Some((_, m, b)) => {
                    proof {
                        lemma_first_match_shape(self.lexer.spec_ignore_rules(), self.input@, 0, true);
                    }
                    self.update_pos(&m, b);
                },
                None => {
                    skipping = false;
                },
            }
        }
        if self.input.as_str().is_empty() {
            self.done = true;
            return None;
        }
        match first_rule_match(&self.lexer.rules, &self.input, false) {
            Some((i, m, b)) => {
                proof {
                    lemma_first_match_shape(self.lexer.spec_rules(), self.input@, 0, false);
                }
                let name = self.lexer.rules[i].name().clone();
                self.update_pos(&m, b);
                let filename = match &self.loc.filename {
                    Some(f) => Some(f.clone()),
                    None => None,
                };
                Some(Ok(Token { name, symbol: m, loc: Location { filename, start: self.loc.start, end: self.loc.end } }))
            },
            None => {
                self.done = true;
                Some(Err(LexerError::InvalidToken(self.loc.end)))
            },
        }
    }
}

/// `prefix` followed by the outcome `rest`.
pub open spec fn prepend(prefix: Seq<TokenModel>, rest: Result<Seq<TokenModel>, LexerError>) -> Result<Seq<TokenModel>, LexerError> {
    match rest {
        Ok(ts) => Ok(prefix + ts),
        Err(e) => Err(e),
    }
}

impl Lexer {
    /// All tokens of `input`, or the error at the first text that no rule
    /// matches or at the first empty token.
    pub fn lex(&self, input: &str) -> (r: Result<Vec<Token>, LexerError>)
        requires
            input@.len() < usize::MAX,
        ensures
            match r {
                Ok(v) => lex_spec(*self, input@, Position::start()) == Ok::<Seq<TokenModel>, LexerError>(token_models(v@)),
                Err(e) => lex_spec(*self, input@, Position::start()) == Err::<Seq<TokenModel>, LexerError>(e),
            },
    {
        self.lex_with_filename(input, None)
    }

    /// All tokens of `input`, each naming `filename` as its source, or the
    /// error at the first text that no rule matches or at the first empty
    /// token.
    pub fn lex_with_filename(&self, input: &str, filename: Option<String>) -> (r: Result<Vec<Token>, LexerError>)
        requires
            input@.len() < usize::MAX,
        ensures
            match r {
                Ok(v) => {
                    &&& lex_spec(*self, input@, Position::start()) == Ok::<Seq<TokenModel>, LexerError>(token_models(v@))
                    &&& forall|j: int| 0 <= j < v@.len() ==> #[trigger] v@[j].loc.filename == filename
                },
                Err(e) => lex_spec(*self, input@, Position::start()) == Err::<Seq<TokenModel>, LexerError>(e),
            },
    {
        let mut stream = LexerStream::new(self, input, filename);
        let mut out: Vec<Token> = Vec::new();
        loop
            invariant
                stream.wf(),
                !stream.spec_done(),
                stream.spec_lexer() == *self,
                stream.spec_filename() == filename,
                forall|j: int| 0 <= j < out@.len() ==> #[trigger] out@[j].loc.filename == filename,
                lex_spec(*self, input@, Position::start())
                    == prepend(token_models(out@), lex_spec(*self, stream.spec_rest(), stream.spec_pos())),
            decreases stream.spec_rest().len(),
        {
            let ghost before = stream;
            match stream.next_token() {
                None => {
                    assert(token_models(out@) + seq![] =~= token_models(out@));
                    return Ok(out);
                },
                Some(Ok(t)) => {
                    if t.symbol.as_str().is_empty() {
                        return Err(LexerError::EmptyToken(t.loc.end));
                    }
                    let ghost outs = out@;
                    out.push(t);
                    proof {
                        assert(token_models(out@) =~= token_models(outs).push(token_model(t)));
                        let tail = lex_spec(*self, stream.spec_rest(), stream.spec_pos());
                        if let Ok(ts) = tail {
                            assert(token_models(outs) + (seq![token_model(t)] + ts) =~= token_models(out@) + ts);
                        }
                    }
                },
                Some(Err(e)) => {
                    return Err(e);
                },
            }
        }
    }
}

/// Input that the ignore rules consume entirely, such as whitespace under a
/// whitespace rule, yields no token at all.
pub proof fn lemma_ignored_input_yields_no_tokens(lexer: Lexer, text: Seq<char>, pos: Position)
    requires
        skip_spec(lexer.spec_ignore_rules(), text, pos).0.len() == 0,
    ensures
        lex_spec(lexer, text, pos) == Ok::<Seq<TokenModel>, LexerError>(seq![]),
{
}

proof fn lemma_first_match_at_most(rules: Seq<Rule>, text: Seq<char>, k: nat, i: nat)
    requires
        k <= i < rules.len(),
        prefix_match(rules[i as int].spec_source(), text) is Some,
    ensures
        first_match(rules, text, k, false) matches Some((w, _, _)) && w <= i,
    decreases i - k,
{
    if k < i && prefix_match(rules[k as int].spec_source(), text) is None {
        lemma_first_match_at_most(rules, text, k + 1, i);
    }
}

/// First-match priority: where token rules `i` and `j`, `i` declared first,
/// both match at the start of the text left after the skip phase, the token
/// comes from rule `i` or an earlier rule, never from `j`, however general
/// `j` is and even where the match of `i` is empty.
pub proof fn lemma_earlier_rule_wins(lexer: Lexer, text: Seq<char>, pos: Position, i: nat, j: nat)
    requires
        i < j < lexer.spec_rules().len(),
        skip_spec(lexer.spec_ignore_rules(), text, pos).0.len() > 0,
        prefix_match(lexer.spec_rules()[i as int].spec_source(), skip_spec(lexer.spec_ignore_rules(), text, pos).0) is Some,
        prefix_match(lexer.spec_rules()[j as int].spec_source(), skip_spec(lexer.spec_ignore_rules(), text, pos).0) is Some,
    ensures
        step_spec(lexer, text, pos) matches Step::Token { rule, .. } && rule <= i && rule != j,
{
    let t = skip_spec(lexer.spec_ignore_rules(), text, pos).0;
    lemma_first_match_at_most(lexer.spec_rules(), t, 0, i);
    lemma_first_match_shape(lexer.spec_rules(), t, 0, false);
}

/// Positions only move forward: each token starts where the previous one
/// ended (or later), and the end offsets strictly increase, since every
/// token is non-empty.
pub proof fn lemma_positions_increase(lexer: Lexer, text: Seq<char>, pos: Position)
    requires
        pos.idx + text.len() < usize::MAX,
    ensures
        lex_spec(lexer, text, pos) matches Ok(ts) ==> {
            &&& forall|k: int| 0 <= k < ts.len() ==> (#[trigger] ts[k]).3.idx > ts[k].2.idx && ts[k].2.idx >= pos.idx
            &&& forall|k: int| 0 <= k < ts.len() - 1 ==> (#[trigger] ts[k + 1]).2.idx >= ts[k].3.idx && ts[k + 1].3.idx > ts[k].3.idx
            &&& ts.len() > 0 ==> ts[0].2 == pos
        },
    decreases text.len(),
{
    let (t, p) = skip_spec(lexer.spec_ignore_rules(), text, pos);
    lemma_skip_suffix(lexer.spec_ignore_rules(), text, pos);
    lemma_first_match_shape(lexer.spec_rules(), t, 0, false);
    if let Step::Token { rule, name, symbol, start, end, rest } = step_spec(lexer, text, pos) {
        if rest.len() < text.len() {
            assert(end.idx == p.idx + symbol.len());
            lemma_positions_increase(lexer, rest, end);
            if let Ok(ts) = lex_spec(lexer, text, pos) {
                let tail = lex_spec(lexer, rest, end)->Ok_0;
                assert(ts == seq![(name, symbol, start, end)] + tail);
                assert forall|k: int| 0 <= k < ts.len() - 1 implies (#[trigger] ts[k + 1]).2.idx >= ts[k].3.idx && ts[k + 1].3.idx > ts[k].3.idx by {
                    if k > 0 {
                        assert(ts[k] == tail[k - 1]);
                        assert(ts[k + 1] == tail[k]);
                        let k1 = k - 1;
                        assert(tail[k1 + 1].2.idx >= tail[k1].3.idx);
                    } else {
                        assert(ts[1] == tail[0]);
                        assert(tail[0].3.idx > tail[0].2.idx);
                    }
                }
                assert forall|k: int| 0 <= k < ts.len() implies (#[trigger] ts[k]).3.idx > ts[k].2.idx && ts[k].2.idx >= pos.idx by {
                    if k > 0 {
                        assert(ts[k] == tail[k - 1]);
                    }
                }
            }
        }
    }
}

} // verus!
