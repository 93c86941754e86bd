use vstd::prelude::*;

use crate::node::ASTNode;
use crate::parser::{dedup_keys, keys_of, kept_from, Parser};
use crate::pattern::Pattern;
use crate::text::{split_words, words};

verus! {

/// Collects the terminal names and the grammar alternatives of a parser.
pub struct ParserBuilder<N, E, F> {
    token_names: Vec<String>,
    patterns: Vec<Pattern<N, E, F>>,
}

impl<N, E, F> ParserBuilder<N, E, F> {
    pub closed spec fn spec_token_names(&self) -> Seq<Seq<char>> {
        self.token_names@.map_values(|s: String| s@)
    }

    pub closed spec fn spec_patterns(&self) -> Seq<Pattern<N, E, F>> {
        self.patterns@
    }

    /// A builder over the terminals `token_names`, with no pattern yet.
    pub fn new(token_names: &[&str]) -> (r: Self)
        ensures
            r.spec_token_names() == token_names@.map_values(|s: &str| s@),
            r.spec_patterns() == Seq::<Pattern<N, E, F>>::empty(),
    {
        let mut names: Vec<String> = Vec::new();
        let mut i: usize = 0;
        while i < token_names.len()
            invariant
                i <= token_names@.len(),
                names@.len() == i,
                forall|j: int| 0 <= j < i ==> #[trigger] names@[j]@ == token_names@[j]@,
            decreases token_names@.len() - i,
        {
            names.push(token_names[i].to_owned());
            i = i + 1;
        }
        let r = ParserBuilder { token_names: names, patterns: Vec::new() };
        assert(r.spec_token_names() =~= token_names@.map_values(|s: &str| s@));
        r
    }

    fn is_token_name(&self, name: &String) -> (r: bool)
        ensures
            r == self.spec_token_names().contains(name@),
    {
        let mut i: usize = 0;
        while i < self.token_names.len()
            invariant
                i <= self.token_names@.len(),
                forall|j: int| 0 <= j < i ==> self.token_names@[j]@ != name@,
            decreases self.token_names@.len() - i,
        {
            if self.token_names[i] == *name {
                assert(self.spec_token_names()[i as int] == name@);
                return true;
            }
            i = i + 1;
        }
        proof {
            if self.spec_token_names().contains(name@) {
                let j = choose|j: int| 0 <= j < self.spec_token_names().len() && self.spec_token_names()[j] == name@;
                assert(self.token_names@[j]@ == name@);
            }
        }
        false
    }

    /// Adds the alternative `name := pattern`, where `pattern` lists the
    /// symbols separated by whitespace; refused when `name` is a terminal.
    pub fn add_pattern(&mut self, name: &str, pattern: &str, func: F) -> (r: Result<(), String>)
        ensures
            final(self).spec_token_names() == old(self).spec_token_names(),
            r is Err <==> old(self).spec_token_names().contains(name@),
            r matches Err(msg) ==> msg@ == "Pattern name already a token"@,
            r is Err ==> final(self).spec_patterns() == old(self).spec_patterns(),
            r is Ok ==> {
                &&& final(self).spec_patterns().len() == old(self).spec_patterns().len() + 1
                &&& final(self).spec_patterns().drop_last() == old(self).spec_patterns()
                &&& final(self).spec_patterns().last().spec_name() == name@
                &&& final(self).spec_patterns().last().spec_elems() == split_words(pattern@)
                &&& final(self).spec_patterns().last().spec_func() == func
            },
    {
        let name = name.to_owned();
        if self.is_token_name(&name) {
            return Err("Pattern name already a token".to_owned());
        }
        let elems = words(pattern);
        let p = Pattern::from_parts(name, elems, func);
        let ghost before = self.patterns@;
        self.patterns.push(p);
        assert(self.patterns@.drop_last() =~= before);
        Ok(())
    }
}

impl<N, E, F: Copy> ParserBuilder<N, E, F> {
    /// Adds each alternative in order, stopping at the first whose name is a
    /// terminal; the alternatives before it stay added.
    pub fn add_patterns(&mut self, patterns: &[(&str, &str, F)]) -> (r: Result<(), String>)
        ensures
            final(self).spec_token_names() == old(self).spec_token_names(),
            r is Err <==> exists|k: int| 0 <= k < patterns@.len() && old(self).spec_token_names().contains(#[trigger] patterns@[k].0@),
            r matches Err(msg) ==> msg@ == "Pattern name already a token"@,
            r is Err ==> exists|k: int| {
                &&& 0 <= k < patterns@.len()
                &&& old(self).spec_token_names().contains(#[trigger] patterns@[k].0@)
                &&& forall|m: int| 0 <= m < k ==> !old(self).spec_token_names().contains(#[trigger] patterns@[m].0@)
                &&& final(self).spec_patterns().len() == old(self).spec_patterns().len() + k
            },
            final(self).spec_patterns().len() >= old(self).spec_patterns().len(),
            final(self).spec_patterns().subrange(0, old(self).spec_patterns().len() as int) == old(self).spec_patterns(),
            forall|k: int| 0 <= k < final(self).spec_patterns().len() - old(self).spec_patterns().len() ==> {
                &&& k < patterns@.len()
                &&& (#[trigger] final(self).spec_patterns()[old(self).spec_patterns().len() + k]).spec_name() == patterns@[k].0@
                &&& final(self).spec_patterns()[old(self).spec_patterns().len() + k].spec_elems() == split_words(patterns@[k].1@)
                &&& final(self).spec_patterns()[old(self).spec_patterns().len() + k].spec_func() == patterns@[k].2
            },
            r is Ok ==> final(self).spec_patterns().len() == old(self).spec_patterns().len() + patterns@.len(),
    {
        let ghost start = self.patterns@;
        let mut i: usize = 0;
        while i < patterns.len()
            invariant
                i <= patterns@.len(),
                self.spec_token_names() == old(self).spec_token_names(),
                start == old(self).spec_patterns(),
                self.patterns@.len() == start.len() + i,
                self.patterns@.subrange(0, start.len() as int) == start,
                forall|k: int| 0 <= k < i ==> !self.spec_token_names().contains(#[trigger] patterns@[k].0@),
                forall|k: int| 0 <= k < i ==> {
                    &&& (#[trigger] self.spec_patterns()[start.len() + k]).spec_name() == patterns@[k].0@
                    &&& self.spec_patterns()[start.len() + k].spec_elems() == split_words(patterns@[k].1@)
                    &&& self.spec_patterns()[start.len() + k].spec_func() == patterns@[k].2
                },
            decreases patterns@.len() - i,
        {
            let (name, pattern, func) = &patterns[i];
            let ghost before = self.patterns@;
            let res = self.add_pattern(name, pattern, *func);
            match res {
                Ok(()) => {
                    assert(self.patterns@.subrange(0, start.len() as int) =~= before.subrange(0, start.len() as int));
                    assert forall|k: int| 0 <= k < i + 1 implies {
                        &&& (#[trigger] self.spec_patterns()[start.len() + k]).spec_name() == patterns@[k].0@
                        &&& self.spec_patterns()[start.len() + k].spec_elems() == split_words(patterns@[k].1@)
                        &&& self.spec_patterns()[start.len() + k].spec_func() == patterns@[k].2
                    } by {
                        if k < i {
                            assert(self.spec_patterns()[start.len() + k] == before[start.len() + k]);
                        }
                    }
                },
                Err(e) => {
                    assert(old(self).spec_token_names().contains(patterns@[i as int].0@));
                    return Err(e);
                },
            }
            i = i + 1;
        }
        Ok(())
    }
}

impl<N: ASTNode, E, F: Copy> ParserBuilder<N, E, F> where F: Fn(&[N]) -> Result<N, E> {
    /// The parser over the collected terminals and patterns, with repeated
    /// alternatives left out.
    pub fn build(&self) -> (r: Parser<N, E, F>)
        ensures
            r.wf(),
            r.spec_token_names() == self.spec_token_names(),
            keys_of(r.spec_patterns()) == dedup_keys(keys_of(self.spec_patterns())),
            forall|k: int| 0 <= k < r.spec_patterns().len() ==> kept_from(self.spec_patterns(), #[trigger] r.spec_patterns()[k]),
    {
        Parser::new(self.token_names.as_slice(), self.patterns.as_slice())
    }
}

} // verus!
