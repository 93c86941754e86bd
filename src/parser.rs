use vstd::prelude::*;

use crate::node::ASTNode;
use crate::pattern::Pattern;
use crate::token::Token;

verus! {

/// Why a resolution failed.
#[derive(Debug, Clone, PartialEq, Eq)]
pub enum ParserError<E> {
    /// A nonterminal was asked for that no pattern derives.
    InvalidPatternName(String),
    /// No alternative of the named nonterminal matches: the soft failure.
    NotMatching(String),
    /// A reducer rejected its children.
    PatternFunc(E),
    /// The program matched only a proper prefix of the tokens.
    TokenRemaining,
    /// A pattern symbol is neither a terminal nor a nonterminal.
    UnknownElem(String),
    /// The named nonterminal was re-entered at the same token without any
    /// token consumed in between, which would recurse without end.
    LeftRecursion(String),
}

/// The failure of a resolution, as described by `resolve_spec`.
pub enum Failure<E> {
    NotMatching(Seq<char>),
    UnknownElem(Seq<char>),
    InvalidPatternName(Seq<char>),
    LeftRecursion(Seq<char>),
    PatternFunc(E),
}

/// The outcome of a resolution: the node built and the position after it.
pub type Outcome<N, E> = Result<(N, nat), Failure<E>>;

impl<E> ParserError<E> {
    /// The failure this error reports; `TokenRemaining` has none, as it is
    /// decided by `parse` after resolution.
    pub open spec fn failure(self) -> Option<Failure<E>> {
        match self {
            ParserError::InvalidPatternName(s) => Some(Failure::InvalidPatternName(s@)),
            ParserError::NotMatching(s) => Some(Failure::NotMatching(s@)),
            ParserError::UnknownElem(s) => Some(Failure::UnknownElem(s@)),
            ParserError::LeftRecursion(s) => Some(Failure::LeftRecursion(s@)),
            ParserError::PatternFunc(e) => Some(Failure::PatternFunc(e)),
            ParserError::TokenRemaining => None,
        }
    }
}

/// The name of the nonterminal that `parse` resolves.
pub open spec fn program_name() -> Seq<char> {
    seq!['p', 'r', 'o', 'g', 'r', 'a', 'm']
}

/// `keys` with every key after its first occurrence left out.
pub open spec fn dedup_keys(keys: Seq<(Seq<char>, Seq<Seq<char>>)>) -> Seq<(Seq<char>, Seq<Seq<char>>)>
    decreases keys.len(),
{
    if keys.len() == 0 {
        seq![]
    } else {
        let d = dedup_keys(keys.drop_last());
        if d.contains(keys.last()) {
            d
        } else {
            d.push(keys.last())
        }
    }
}

pub proof fn lemma_dedup_keys_distinct(keys: Seq<(Seq<char>, Seq<Seq<char>>)>)
    ensures
        dedup_keys(keys).no_duplicates(),
    decreases keys.len(),
{
    if keys.len() > 0 {
        let d = dedup_keys(keys.drop_last());
        lemma_dedup_keys_distinct(keys.drop_last());
        if !d.contains(keys.last()) {
            let e = d.push(keys.last());
            assert forall|i: int, j: int| 0 <= i < e.len() && 0 <= j < e.len() && i != j implies e[i] != e[j] by {
                if i < d.len() && j < d.len() {
                    assert(d[i] != d[j]);
                } else if i < d.len() {
                    assert(d.contains(d[i]));
                } else if j < d.len() {
                    assert(d.contains(d[j]));
                }
            }
        }
    }
}

/// Every key of `keys` stays in `dedup_keys(keys)`.
pub proof fn lemma_dedup_keeps(keys: Seq<(Seq<char>, Seq<Seq<char>>)>, x: (Seq<char>, Seq<Seq<char>>))
    requires
        keys.contains(x),
    ensures
        dedup_keys(keys).contains(x),
    decreases keys.len(),
{
    let d = dedup_keys(keys.drop_last());
    if x == keys.last() {
        if !d.contains(x) {
            assert(d.push(x)[d.len() as int] == x);
        }
    } else {
        let m = choose|m: int| 0 <= m < keys.len() && keys[m] == x;
        assert(keys.drop_last()[m] == x);
        lemma_dedup_keeps(keys.drop_last(), x);
        if !d.contains(keys.last()) {
            let i = choose|i: int| 0 <= i < d.len() && d[i] == x;
            assert(d.push(keys.last())[i] == x);
        }
    }
}

/// No pattern before index `j` of `ps` has the name and symbols of `ps[j]`.
pub open spec fn first_of_key<N, E, F>(ps: Seq<Pattern<N, E, F>>, j: int) -> bool {
    forall|m: int| 0 <= m < j ==> ps[m].key() != ps[j].key()
}

/// `p` has the name, symbols and reducer of the first pattern of `ps` with its key.
pub open spec fn kept_from<N, E, F>(ps: Seq<Pattern<N, E, F>>, p: Pattern<N, E, F>) -> bool {
    exists|j: int|
        0 <= j < ps.len() && #[trigger] first_of_key(ps, j) && p.key() == ps[j].key() && p.spec_func() == ps[j].spec_func()
}

/// The keys of a list of patterns, in order.
pub open spec fn keys_of<N, E, F>(ps: Seq<Pattern<N, E, F>>) -> Seq<(Seq<char>, Seq<Seq<char>>)> {
    ps.map_values(|p: Pattern<N, E, F>| p.key())
}

/// The terminal vocabulary and the table of grammar alternatives.
pub struct Parser<N, E, F> {
    token_names: Vec<String>,
    patterns: Vec<Pattern<N, E, F>>,
}

impl<N: ASTNode, E, F> Parser<N, E, F> where F: Fn(&[N]) -> Result<N, E> {
    pub closed spec fn spec_token_names(&self) -> Seq<Seq<char>> {
        self.token_names@.map_values(|s: String| s@)
    }

    pub closed spec fn spec_patterns(&self) -> Seq<Pattern<N, E, F>> {
        self.patterns@
    }

    /// No two patterns of the table share both name and symbols.
    pub open spec fn wf(&self) -> bool {
        keys_of(self.spec_patterns()).no_duplicates()
    }

    pub open spec fn is_terminal(&self, x: Seq<char>) -> bool {
        self.spec_token_names().contains(x)
    }

    pub open spec fn is_nonterminal(&self, x: Seq<char>) -> bool {
        exists|i: int| 0 <= i < self.spec_patterns().len() && #[trigger] self.spec_patterns()[i].spec_name() == x
    }

    /// How many nonterminals may be open at one token before some name must
    /// repeat: no more than there are patterns.
    pub open spec fn depth_bound(&self) -> nat {
        self.spec_patterns().len()
    }

    /// The result of the reducer of pattern `pi` on the children `ch`.
    pub open spec fn reduce_spec(&self, pi: nat, ch: Seq<N>) -> Result<N, E> {
        choose|r: Result<N, E>| #[trigger] self.reduces_to(pi, ch, r)
    }

    /// The reducer of pattern `pi` may give `r` on the children `ch`.
    pub open spec fn reduces_to(&self, pi: nat, ch: Seq<N>, r: Result<N, E>) -> bool {
        exists|s: &[N]| s@ == ch && #[trigger] call_ensures(self.spec_patterns()[pi as int].spec_func(), (s,), r)
    }

    /// Resolution of nonterminal `name` at token `pos`, inside `depth`
    /// enclosing resolutions that started at the same token: ordered choice
    /// over its alternatives. On success it gives the node that the winning
    /// alternative's reducer built and the position after the alternative.
    pub open spec fn resolve_spec(&self, toks: Seq<Token>, pos: nat, name: Seq<char>, depth: nat) -> Outcome<N, E>
        decreases toks.len() - pos, self.depth_bound() - depth, self.spec_patterns().len() + 1, 0nat,
    {
        if !self.is_nonterminal(name) {
            Err(Failure::InvalidPatternName(name))
        } else if depth >= self.depth_bound() {
            Err(Failure::LeftRecursion(name))
        } else if pos > toks.len() {
            Err(Failure::NotMatching(name))
        } else {
            self.alts_spec(toks, pos, name, depth, 0)
        }
    }

    /// Ordered choice over the patterns from index `i` on.
    pub open spec fn alts_spec(&self, toks: Seq<Token>, pos: nat, name: Seq<char>, depth: nat, i: nat) -> Outcome<N, E>
        decreases toks.len() - pos, self.depth_bound() - depth, self.spec_patterns().len() - i, 1nat,
    {
        if i >= self.spec_patterns().len() || depth >= self.depth_bound() || pos > toks.len() {
            Err(Failure::NotMatching(name))
        } else if self.spec_patterns()[i as int].spec_name() != name {
            self.alts_spec(toks, pos, name, depth, i + 1)
        } else {
            match self.elems_spec(toks, pos, depth, i, 0, pos, seq![]) {
                Err(Failure::NotMatching(_)) => self.alts_spec(toks, pos, name, depth, i + 1),
                other => other,
            }
        }
    }

    /// Matching of pattern `pi` from its symbol `k` on, at token `cur`, with
    /// the children `ch` built so far, for a resolution that started at token
    /// `pos`. A terminal adds the node wrapping its token; a nonterminal adds
    /// the node it resolves to; after the last symbol the reducer runs on the
    /// children.
    pub open spec fn elems_spec(&self, toks: Seq<Token>, pos: nat, depth: nat, pi: nat, k: nat, cur: nat, ch: Seq<N>) -> Outcome<N, E>
        decreases toks.len() - pos, self.depth_bound() - depth, self.spec_patterns().len() - pi, 0nat, self.spec_patterns()[pi as int].spec_elems().len() - k,
    {
        if pi >= self.spec_patterns().len() {
            Err(Failure::NotMatching(seq![]))
        } else {
            let pat = self.spec_patterns()[pi as int];
            let elems = pat.spec_elems();
            if k >= elems.len() {
                match self.reduce_spec(pi, ch) {
                    Ok(n) => Ok((n, cur)),
                    Err(x) => Err(Failure::PatternFunc(x)),
                }
            } else {
                let e = elems[k as int];
                if self.is_terminal(e) {
                    if cur < toks.len() && toks[cur as int].name@ == e {
                        self.elems_spec(toks, pos, depth, pi, k + 1, cur + 1, ch.push(N::token_node(toks[cur as int])))
                    } else {
                        Err(Failure::NotMatching(pat.spec_name()))
                    }
                } else if self.is_nonterminal(e) {
                    let d = if cur == pos { depth + 1 } else { 0 };
                    if cur < pos || cur > toks.len() || d > self.depth_bound() {
                        Err(Failure::NotMatching(pat.spec_name()))
                    } else {
                        match self.resolve_spec(toks, cur, e, d) {
                            Ok((n, end)) => self.elems_spec(toks, pos, depth, pi, k + 1, end, ch.push(n)),
                            Err(Failure::NotMatching(_)) => Err(Failure::NotMatching(pat.spec_name())),
                            Err(f) => Err(f),
                        }
                    }
                } else {
                    Err(Failure::UnknownElem(e))
                }
            }
        }
    }

    /// Every reducer of the table accepts every list of children.
    pub open spec fn reducers_total(&self) -> bool {
        forall|i: int, s: &[N]|
            0 <= i < self.spec_patterns().len() ==> #[trigger] call_requires(self.spec_patterns()[i].spec_func(), (s,))
    }

    /// Every reducer of the table gives one result for given children.
    pub open spec fn reducers_deterministic(&self) -> bool {
        forall|i: int, s1: &[N], s2: &[N], r1: Result<N, E>, r2: Result<N, E>|
            0 <= i < self.spec_patterns().len() && s1@ == s2@
                && #[trigger] call_ensures(self.spec_patterns()[i].spec_func(), (s1,), r1)
                && #[trigger] call_ensures(self.spec_patterns()[i].spec_func(), (s2,), r2) ==> r1 == r2
    }

    /// The reducers of the table are functions of their children: they
    /// accept every list of children and give one result for it.
    pub open spec fn reducers_are_functions(&self) -> bool {
        self.reducers_total() && self.reducers_deterministic()
    }

    /// What an executed resolution returns, as an outcome.
    pub open spec fn outcome_of(r: Result<(N, usize), ParserError<E>>) -> Option<Outcome<N, E>> {
        match r {
            Ok((n, end)) => Some(Ok((n, end as nat))),
            Err(err) => match err.failure() {
                Some(f) => Some(Err(f)),
                None => None,
            },
        }
    }

    fn is_elem_token(&self, elem: &String) -> (r: bool)
        ensures
            r == self.is_terminal(elem@),
    {
        let mut i: usize = 0;
        while i < self.token_names.len()
            invariant
                i <= self.token_names@.len(),
                forall|j: int| 0 <= j < i ==> self.token_names@[j]@ != elem@,
            decreases self.token_names@.len() - i,
        {
            if self.token_names[i] == *elem {
                assert(self.spec_token_names()[i as int] == elem@);
                return true;
            }
            i = i + 1;
        }
        proof {
            if self.spec_token_names().contains(elem@) {
                let j = choose|j: int| 0 <= j < self.spec_token_names().len() && self.spec_token_names()[j] == elem@;
                assert(self.token_names@[j]@ == elem@);
            }
        }
        false
    }

    fn is_elem_node(&self, elem: &String) -> (r: bool)
        ensures
            r == self.is_nonterminal(elem@),
    {
        let mut i: usize = 0;
        while i < self.patterns.len()
            invariant
                i <= self.patterns@.len(),
                forall|j: int| 0 <= j < i ==> #[trigger] self.patterns@[j].spec_name() != elem@,
            decreases self.patterns@.len() - i,
        {
            let nm = self.patterns[i].name();
            if *nm == *elem {
                assert(self.spec_patterns()[i as int].spec_name() == elem@);
                return true;
            }
            i = i + 1;
        }
        false
    }

    /// Ordered choice over the alternatives of `name` at token `pos`.
    fn eval_pattern_by_name(&self, tokens: &[Token], pos: usize, name: &String, depth: usize) -> (r: Result<(N, usize), ParserError<E>>)
        requires
            pos <= tokens@.len(),
            self.reducers_are_functions(),
        ensures
            Self::outcome_of(r) == Some(self.resolve_spec(tokens@, pos as nat, name@, depth as nat)),
            r matches Ok((_, end)) ==> pos <= end <= tokens@.len(),
        decreases tokens@.len() - pos, self.depth_bound() - depth, 1nat,
    {
        if !self.is_elem_node(name) {
            return Err(ParserError::InvalidPatternName(name.clone()));
        }
        if depth >= self.patterns.len() {
            return Err(ParserError::LeftRecursion(name.clone()));
        }
        let mut i: usize = 0;
        while i < self.patterns.len()
            invariant
                i <= self.patterns@.len(),
                pos <= tokens@.len(),
                depth < self.depth_bound(),
                self.is_nonterminal(name@),
                self.reducers_are_functions(),
                self.resolve_spec(tokens@, pos as nat, name@, depth as nat)
                    == self.alts_spec(tokens@, pos as nat, name@, depth as nat, i as nat),
            decreases self.patterns@.len() - i,
        {
            if *self.patterns[i].name() == *name {
                match self.eval_pattern(tokens, pos, i, depth) {
                    Ok(x) => {
                        return Ok(x);
                    },
                    Err(ParserError::NotMatching(_)) => {},
                    Err(e) => {
                        return Err(e);
                    },
                }
            }
            i = i + 1;
        }
        Err(ParserError::NotMatching(name.clone()))
    }

    /// Matches pattern `pi` symbol by symbol from token `pos`, then reduces.
    fn eval_pattern(&self, tokens: &[Token], pos: usize, pi: usize, depth: usize) -> (r: Result<(N, usize), ParserError<E>>)
        requires
            pos <= tokens@.len(),
            pi < self.spec_patterns().len(),
            depth < self.depth_bound(),
            self.reducers_are_functions(),
        ensures
            Self::outcome_of(r) == Some(self.elems_spec(tokens@, pos as nat, depth as nat, pi as nat, 0, pos as nat, seq![])),
            r matches Ok((_, end)) ==> pos <= end <= tokens@.len(),
        decreases tokens@.len() - pos, self.depth_bound() - depth, 0nat,
    {
        let pat = &self.patterns[pi];
        let elems = pat.elems();
        let bound: usize = self.patterns.len();
        let mut children: Vec<N> = Vec::new();
        let mut cur: usize = pos;
        let mut k: usize = 0;
        while k < elems.len()
            invariant
                *pat == self.spec_patterns()[pi as int],
                elems@.map_values(|e: String| e@) == pat.spec_elems(),
                pi < self.spec_patterns().len(),
                depth < self.depth_bound(),
                bound == self.depth_bound(),
                self.reducers_are_functions(),
                k <= elems@.len(),
                children@.len() == k,
                pos <= cur <= tokens@.len(),
                self.elems_spec(tokens@, pos as nat, depth as nat, pi as nat, 0, pos as nat, seq![])
                    == self.elems_spec(tokens@, pos as nat, depth as nat, pi as nat, k as nat, cur as nat, children@),
            decreases elems@.len() - k,
        {
            let elem = &elems[k];
            assert(pat.spec_elems()[k as int] == elem@);
            if self.is_elem_token(elem) {
                if cur >= tokens.len() {
                    return Err(ParserError::NotMatching(pat.name().clone()));
                }
                if !(tokens[cur].name == *elem) {
                    return Err(ParserError::NotMatching(pat.name().clone()));
                }
                let w = N::new_token(&tokens[cur]);
                children.push(w);
                cur = cur + 1;
            } else if self.is_elem_node(elem) {
                let d: usize = if cur == pos { depth + 1 } else { 0 };
                match self.eval_pattern_by_name(tokens, cur, elem, d) {
                    Ok((n, end)) => {
                        children.push(n);
                        cur = end;
                    },
                    Err(ParserError::NotMatching(_)) => {
                        return Err(ParserError::NotMatching(pat.name().clone()));
                    },
                    Err(e) => {
                        return Err(e);
                    },
                }
            } else {
                return Err(ParserError::UnknownElem(elem.clone()));
            }
            k = k + 1;
        }
        let args = children.as_slice();
        let res = pat.reduce(args);
        proof {
            let f = self.spec_patterns()[pi as int].spec_func();
            assert(call_ensures(f, (args,), res));
            assert(self.reduces_to(pi as nat, children@, res));
            let r2 = self.reduce_spec(pi as nat, children@);
            let s2 = choose|s: &[N]| s@ == children@ && call_ensures(f, (s,), r2);
            assert(call_ensures(f, (s2,), r2));
            assert(res == r2);
        }
        match res {
            Ok(n) => Ok((n, cur)),
            Err(x) => Err(ParserError::PatternFunc(x)),
        }
    }

    /// What `parse` returns on `toks`: the program's node when its
    /// resolution consumes every token, `TokenRemaining` when it consumes a
    /// proper prefix, and the resolution's failure otherwise.
    pub open spec fn parse_spec(&self, toks: Seq<Token>, r: Result<N, ParserError<E>>) -> bool {
        match self.resolve_spec(toks, 0, program_name(), 0) {
            Ok((n, e)) => if e == toks.len() {
                r == Ok::<N, ParserError<E>>(n)
            } else {
                r matches Err(ParserError::TokenRemaining)
            },
            Err(f) => r matches Err(err) && err.failure() == Some(f),
        }
    }

    /// Resolves nonterminal `name` against a prefix of `tokens`; on success
    /// gives the node and how many tokens it consumed.
    pub fn resolve(&self, tokens: &[Token], name: &str) -> (r: Result<(N, usize), ParserError<E>>)
        requires
            self.reducers_are_functions(),
        ensures
            Self::outcome_of(r) == Some(self.resolve_spec(tokens@, 0, name@, 0)),
            r matches Ok((_, end)) ==> end <= tokens@.len(),
    {
        let name = name.to_owned();
        self.eval_pattern_by_name(tokens, 0, &name, 0)
    }

    /// Resolves the nonterminal `program` against all of `tokens`.
    pub fn parse(&self, tokens: &[Token]) -> (r: Result<N, ParserError<E>>)
        requires
            self.reducers_are_functions(),
        ensures
            self.parse_spec(tokens@, r),
    {
        let name = "program".to_owned();
        proof {
            reveal_strlit("program");
            assert(name@ =~= program_name());
        }
        match self.eval_pattern_by_name(tokens, 0, &name, 0) {
            Ok((n, end)) => {
                if end == tokens.len() {
                    Ok(n)
                } else {
                    Err(ParserError::TokenRemaining)
                }
            },
            Err(e) => Err(e),
        }
    }
}

impl<N: ASTNode, E, F: Copy> Parser<N, E, F> where F: Fn(&[N]) -> Result<N, E> {
    /// A parser over the terminals `token_names` and the patterns, with every
    /// pattern that repeats the name and symbols of an earlier one left out.
    /// Each kept entry is the first pattern with its name and symbols,
    /// reducer included.
    pub fn new(token_names: &[String], patterns: &[Pattern<N, E, F>]) -> (r: Self)
        ensures
            r.wf(),
            r.spec_token_names() == token_names@.map_values(|s: String| s@),
            keys_of(r.spec_patterns()) == dedup_keys(keys_of(patterns@)),
            forall|k: int| 0 <= k < r.spec_patterns().len() ==> kept_from(patterns@, #[trigger] r.spec_patterns()[k]),
    {
        let mut names: Vec<String> = Vec::new();
        let mut i: usize = 0;
        while i < token_names.len()
            invariant
                i <= token_names@.len(),
                names@.len() == i,
                forall|j: int| 0 <= j < i ==> #[trigger] names@[j]@ == token_names@[j]@,
            decreases token_names@.len() - i,
        {
            names.push(token_names[i].clone());
            i = i + 1;
        }
        assert(names@.map_values(|s: String| s@) =~= token_names@.map_values(|s: String| s@));
        let mut kept: Vec<Pattern<N, E, F>> = Vec::new();
        let mut i: usize = 0;
        while i < patterns.len()
            invariant
                i <= patterns@.len(),
                keys_of(kept@) == dedup_keys(keys_of(patterns@.subrange(0, i as int))),
                forall|k: int| 0 <= k < kept@.len() ==> kept_from(patterns@, #[trigger] kept@[k]),
            decreases patterns@.len() - i,
        {
            let mut seen = false;
            let mut j: usize = 0;
            while j < kept.len()
                invariant
                    j <= kept@.len(),
                    i < patterns@.len(),
                    !seen ==> forall|m: int| 0 <= m < j ==> kept@[m].key() != patterns@[i as int].key(),
                    seen ==> exists|m: int| 0 <= m < kept@.len() && kept@[m].key() == patterns@[i as int].key(),
                decreases kept@.len() - j,
            {
                if kept[j] == patterns[i] {
                    seen = true;
                }
                j = j + 1;
            }
            proof {
                let prev = patterns@.subrange(0, i as int);
                let next = patterns@.subrange(0, i as int + 1);
                assert(keys_of(next).drop_last() =~= keys_of(prev));
                assert(keys_of(next).last() == patterns@[i as int].key());
                if seen {
                    let m = choose|m: int| 0 <= m < kept@.len() && kept@[m].key() == patterns@[i as int].key();
                    assert(keys_of(kept@)[m] == patterns@[i as int].key());
                } else {
                    assert(!keys_of(kept@).contains(patterns@[i as int].key())) by {
                        if keys_of(kept@).contains(patterns@[i as int].key()) {
                            let m = choose|m: int| 0 <= m < keys_of(kept@).len() && keys_of(kept@)[m] == patterns@[i as int].key();
                            assert(kept@[m].key() == patterns@[i as int].key());
                        }
                    }
                }
            }
            if !seen {
                proof {
                    assert forall|m: int| 0 <= m < i implies patterns@[m].key() != patterns@[i as int].key() by {
                        let prev = patterns@.subrange(0, i as int);
                        assert(keys_of(prev)[m] == patterns@[m].key());
                        lemma_dedup_keeps(keys_of(prev), patterns@[m].key());
                    }
                    assert(first_of_key(patterns@, i as int));
                }
                let p = patterns[i].duplicate();
                let ghost before = kept@;
                kept.push(p);
                proof {
                    assert(keys_of(kept@) =~= keys_of(before).push(patterns@[i as int].key()));
                    assert(kept_from(patterns@, kept@[kept@.len() - 1]));
                    assert forall|k: int| 0 <= k < kept@.len() implies kept_from(patterns@, #[trigger] kept@[k]) by {
                        if k < before.len() {
                            assert(kept@[k] == before[k]);
                        }
                    }
                }
            }
            i = i + 1;
        }
        assert(patterns@.subrange(0, patterns@.len() as int) =~= patterns@);
        proof {
            lemma_dedup_keys_distinct(keys_of(patterns@));
        }
        Parser { token_names: names, patterns: kept }
    }
}

impl<N: ASTNode, E, F> Parser<N, E, F> where F: Fn(&[N]) -> Result<N, E> {
    /// Pattern `j` is tried for `name` and fails softly, or is not an alternative of `name`.
    pub open spec fn passes_over(&self, toks: Seq<Token>, pos: nat, name: Seq<char>, depth: nat, j: nat) -> bool {
        self.spec_patterns()[j as int].spec_name() != name
            || self.elems_spec(toks, pos, depth, j, 0, pos, seq![]) matches Err(Failure::NotMatching(_))
    }

    proof fn lemma_alts_skip(&self, toks: Seq<Token>, pos: nat, name: Seq<char>, depth: nat, i: nat, a: nat)
        requires
            i <= a < self.spec_patterns().len(),
            pos <= toks.len(),
            depth < self.depth_bound(),
            forall|j: nat| i <= j < a ==> #[trigger] self.passes_over(toks, pos, name, depth, j),
        ensures
            self.alts_spec(toks, pos, name, depth, i) == self.alts_spec(toks, pos, name, depth, a),
        decreases a - i,
    {
        if i < a {
            assert(self.passes_over(toks, pos, name, depth, i));
            self.lemma_alts_skip(toks, pos, name, depth, i + 1, a);
        }
    }

    /// Ordered choice: when alternative `a` of `name` does not fail softly
    /// and every earlier alternative of `name` does, resolution gives exactly
    /// what `a` gives, never the derivation of a later alternative `b`, even
    /// where `b` would match as well.
    pub proof fn lemma_first_match_wins(&self, toks: Seq<Token>, pos: nat, name: Seq<char>, depth: nat, a: nat, b: nat)
        requires
            a < b < self.spec_patterns().len(),
            pos <= toks.len(),
            depth < self.depth_bound(),
            self.spec_patterns()[a as int].spec_name() == name,
            self.spec_patterns()[b as int].spec_name() == name,
            !(self.elems_spec(toks, pos, depth, a, 0, pos, seq![]) matches Err(Failure::NotMatching(_))),
            forall|j: nat| j < a ==> #[trigger] self.passes_over(toks, pos, name, depth, j),
        ensures
            self.resolve_spec(toks, pos, name, depth) == self.elems_spec(toks, pos, depth, a, 0, pos, seq![]),
    {
        self.lemma_alts_skip(toks, pos, name, depth, 0, a);
    }

    /// Epsilon: an alternative of `name` with no symbols, reached after the
    /// earlier alternatives of `name` fail softly, resolves `name` to its
    /// reducer's result on no children, consuming no token.
    pub proof fn lemma_epsilon_accepts(&self, toks: Seq<Token>, pos: nat, name: Seq<char>, depth: nat, a: nat)
        requires
            a < self.spec_patterns().len(),
            pos <= toks.len(),
            depth < self.depth_bound(),
            self.spec_patterns()[a as int].spec_name() == name,
            self.spec_patterns()[a as int].spec_elems().len() == 0,
            forall|j: nat| j < a ==> #[trigger] self.passes_over(toks, pos, name, depth, j),
        ensures
            self.resolve_spec(toks, pos, name, depth) == match self.reduce_spec(a, seq![]) {
                Ok(n) => Ok::<(N, nat), Failure<E>>((n, pos)),
                Err(x) => Err(Failure::PatternFunc(x)),
            },
    {
        self.lemma_alts_skip(toks, pos, name, depth, 0, a);
        assert(self.is_nonterminal(name));
        let e = self.elems_spec(toks, pos, depth, a, 0, pos, seq![]);
        assert(e == match self.reduce_spec(a, seq![]) {
            Ok(n) => Ok::<(N, nat), Failure<E>>((n, pos)),
            Err(x) => Err(Failure::PatternFunc(x)),
        });
        assert(self.alts_spec(toks, pos, name, depth, a) == e);
    }

    /// A symbol that is neither a terminal nor a nonterminal fails the
    /// pattern with `UnknownElem`, whatever the tokens and before any reducer
    /// runs.
    pub proof fn lemma_unknown_symbol(&self, toks: Seq<Token>, pos: nat, depth: nat, pi: nat, k: nat, cur: nat, ch: Seq<N>)
        requires
            pi < self.spec_patterns().len(),
            k < self.spec_patterns()[pi as int].spec_elems().len(),
            !self.is_terminal(self.spec_patterns()[pi as int].spec_elems()[k as int]),
            !self.is_nonterminal(self.spec_patterns()[pi as int].spec_elems()[k as int]),
        ensures
            self.elems_spec(toks, pos, depth, pi, k, cur, ch)
                == Err::<(N, nat), Failure<E>>(Failure::UnknownElem(self.spec_patterns()[pi as int].spec_elems()[k as int])),
    {
    }

    /// Resolution fails with `InvalidPatternName` exactly when no pattern
    /// derives the asked name, and then with that name, whatever the tokens.
    pub proof fn lemma_invalid_pattern_name(&self, toks: Seq<Token>, pos: nat, name: Seq<char>, depth: nat)
        ensures
            (self.resolve_spec(toks, pos, name, depth) matches Err(Failure::InvalidPatternName(_)))
                <==> !self.is_nonterminal(name),
            !self.is_nonterminal(name) ==> self.resolve_spec(toks, pos, name, depth)
                == Err::<(N, nat), Failure<E>>(Failure::InvalidPatternName(name)),
    {
        if self.is_nonterminal(name) {
            self.lemma_no_invalid_resolve(toks, pos, name, depth);
        }
    }

    proof fn lemma_no_invalid_resolve(&self, toks: Seq<Token>, pos: nat, name: Seq<char>, depth: nat)
        requires
            self.is_nonterminal(name),
        ensures
            !(self.resolve_spec(toks, pos, name, depth) matches Err(Failure::InvalidPatternName(_))),
        decreases toks.len() - pos, self.depth_bound() - depth, self.spec_patterns().len() + 1, 0nat,
    {
        if depth < self.depth_bound() && pos <= toks.len() {
            self.lemma_no_invalid_alts(toks, pos, name, depth, 0);
        }
    }

    proof fn lemma_no_invalid_alts(&self, toks: Seq<Token>, pos: nat, name: Seq<char>, depth: nat, i: nat)
        ensures
            !(self.alts_spec(toks, pos, name, depth, i) matches Err(Failure::InvalidPatternName(_))),
        decreases toks.len() - pos, self.depth_bound() - depth, self.spec_patterns().len() - i, 1nat,
    {
        if i < self.spec_patterns().len() && depth < self.depth_bound() && pos <= toks.len() {
            if self.spec_patterns()[i as int].spec_name() == name {
                self.lemma_no_invalid_elems(toks, pos, depth, i, 0, pos, seq![]);
            }
            self.lemma_no_invalid_alts(toks, pos, name, depth, i + 1);
        }
    }

    proof fn lemma_no_invalid_elems(&self, toks: Seq<Token>, pos: nat, depth: nat, pi: nat, k: nat, cur: nat, ch: Seq<N>)
        ensures
            !(self.elems_spec(toks, pos, depth, pi, k, cur, ch) matches Err(Failure::InvalidPatternName(_))),
        decreases toks.len() - pos, self.depth_bound() - depth, self.spec_patterns().len() - pi, 0nat,
            self.spec_patterns()[pi as int].spec_elems().len() - k,
    {
        if pi < self.spec_patterns().len() {
            let elems = self.spec_patterns()[pi as int].spec_elems();
            if k < elems.len() {
                let e = elems[k as int];
                if self.is_terminal(e) {
                    if cur < toks.len() && toks[cur as int].name@ == e {
                        self.lemma_no_invalid_elems(toks, pos, depth, pi, k + 1, cur + 1, ch.push(N::token_node(toks[cur as int])));
                    }
                } else if self.is_nonterminal(e) {
                    let d = if cur == pos { depth + 1 } else { 0 };
                    if !(cur < pos || cur > toks.len() || d > self.depth_bound()) {
                        self.lemma_no_invalid_resolve(toks, cur, e, d);
                        if let Ok((n, end)) = self.resolve_spec(toks, cur, e, d) {
                            self.lemma_no_invalid_elems(toks, pos, depth, pi, k + 1, end, ch.push(n));
                        }
                    }
                }
            }
        }
    }
}

} // verus!
