use vstd::prelude::*;

use crate::lexer::Lexer;
use crate::rule::{regex_compiles, Rule};
use vstd::string::StringExecFns;

verus! {

/// The name and pattern text of each rule, in order.
pub open spec fn rule_views(rs: Seq<Rule>) -> Seq<(Seq<char>, Seq<char>)> {
    rs.map_values(|r: Rule| (r.spec_name(), r.spec_source()))
}

/// The index of the first pattern text that does not compile, if any.
pub open spec fn first_invalid(ps: Seq<Seq<char>>) -> Option<nat>
    decreases ps.len(),
{
    if ps.len() == 0 {
        None
    } else if !regex_compiles(ps[0]) {
        Some(0)
    } else {
        match first_invalid(ps.drop_first()) {
            Some(k) => Some(k + 1),
            None => None,
        }
    }
}

/// The message that reports the pattern text `p` as invalid.
pub open spec fn invalid_regex_message(p: Seq<char>) -> Seq<char> {
    seq!['I', 'n', 'v', 'a', 'l', 'i', 'd', ' ', 'r', 'e', 'g', 'e', 'x', ' ', '\''] + p + seq!['\'']
}

fn invalid_regex(p: &str) -> (r: String)
    ensures
        r@ == invalid_regex_message(p@),
{
    let head = "Invalid regex '".to_owned();
    let r = head.concat(p).concat("'");
    proof {
        reveal_strlit("Invalid regex '");
        reveal_strlit("'");
        assert(r@ =~= invalid_regex_message(p@));
    }
    r
}

fn duplicate_rules(rs: &Vec<Rule>) -> (r: Vec<Rule>)
    ensures
        rule_views(r@) == rule_views(rs@),
{
    let mut out: Vec<Rule> = Vec::new();
    let mut i: usize = 0;
    while i < rs.len()
        invariant
            i <= rs@.len(),
            rule_views(out@) == rule_views(rs@.take(i as int)),
        decreases rs@.len() - i,
    {
        let ghost before = out@;
        out.push(rs[i].duplicate());
        assert(rule_views(out@) =~= rule_views(before).push((rs@[i as int].spec_name(), rs@[i as int].spec_source())));
        assert(rs@.take(i as int + 1) =~= rs@.take(i as int).push(rs@[i as int]));
        assert(rule_views(rs@.take(i as int + 1)) =~= rule_views(rs@.take(i as int)).push((rs@[i as int].spec_name(), rs@[i as int].spec_source())));
        i = i + 1;
    }
    assert(rs@.take(rs@.len() as int) =~= rs@);
    out
}

/// Collects token rules and ignore rules, checking each pattern as it comes.
pub struct LexerBuilder {
    rules: Vec<Rule>,
    ignore_rules: Vec<Rule>,
}

impl LexerBuilder {
    pub closed spec fn spec_rules(&self) -> Seq<(Seq<char>, Seq<char>)> {
        rule_views(self.rules@)
    }

    pub closed spec fn spec_ignore_rules(&self) -> Seq<(Seq<char>, Seq<char>)> {
        rule_views(self.ignore_rules@)
    }

    pub fn new() -> (r: Self)
        ensures
            r.spec_rules() == Seq::<(Seq<char>, Seq<char>)>::empty(),
            r.spec_ignore_rules() == Seq::<(Seq<char>, Seq<char>)>::empty(),
    {
        let r = LexerBuilder { rules: Vec::new(), ignore_rules: Vec::new() };
        assert(r.spec_rules() =~= Seq::<(Seq<char>, Seq<char>)>::empty());
        assert(r.spec_ignore_rules() =~= Seq::<(Seq<char>, Seq<char>)>::empty());
        r
    }

    /// Adds the token rule `name` over `pattern`; refused, with nothing
    /// added, when the pattern does not compile.
    pub fn add_rule(&mut self, name: &str, pattern: &str) -> (r: Result<(), ()>)
        ensures
            r is Ok == regex_compiles(pattern@),
            final(self).spec_ignore_rules() == old(self).spec_ignore_rules(),
            final(self).spec_rules() == if r is Ok {
                old(self).spec_rules().push((name@, pattern@))
            } else {
                old(self).spec_rules()
            },
    {
        match Rule::new(name, pattern) {
            Ok(rule) => {
                let ghost before = self.rules@;
                self.rules.push(rule);
                assert(rule_views(self.rules@) =~= rule_views(before).push((name@, pattern@)));
                Ok(())
            },
            Err(_) => Err(()),
        }
    }

    /// Adds the token rules in order, stopping at the first pattern that
    /// does not compile and reporting its text; the rules before it stay added.
    pub fn add_rules(&mut self, rules: &[(&str, &str)]) -> (r: Result<(), String>)
        ensures
            final(self).spec_ignore_rules() == old(self).spec_ignore_rules(),
            match first_invalid(rules@.map_values(|p: (&str, &str)| p.1@)) {
                None => {
                    &&& r is Ok
                    &&& final(self).spec_rules() == old(self).spec_rules() + rules@.map_values(|p: (&str, &str)| (p.0@, p.1@))
                },
                Some(k) => {
                    &&& r matches Err(msg) && msg@ == invalid_regex_message(rules@[k as int].1@)
                    &&& final(self).spec_rules() == old(self).spec_rules() + rules@.take(k as int).map_values(|p: (&str, &str)| (p.0@, p.1@))
                },
            },
    {
        let ghost pats = rules@.map_values(|p: (&str, &str)| p.1@);
        let ghost views = rules@.map_values(|p: (&str, &str)| (p.0@, p.1@));
        let mut i: usize = 0;
        assert(pats.skip(0) =~= pats);
        while i < rules.len()
            invariant
                i <= rules@.len(),
                pats == rules@.map_values(|p: (&str, &str)| p.1@),
                views == rules@.map_values(|p: (&str, &str)| (p.0@, p.1@)),
                self.spec_ignore_rules() == old(self).spec_ignore_rules(),
                self.spec_rules() == old(self).spec_rules() + views.take(i as int),
                first_invalid(pats) == match first_invalid(pats.skip(i as int)) {
                    Some(k) => Some((k + i) as nat),
                    None => None::<nat>,
                },
            decreases rules@.len() - i,
        {
            let (name, pattern) = rules[i];
            let ghost before = self.spec_rules();
            assert(pats.skip(i as int).drop_first() =~= pats.skip(i as int + 1));
            assert(pats.skip(i as int)[0] == pattern@);
            if self.add_rule(name, pattern).is_err() {
                assert(rules@.take(i as int).map_values(|p: (&str, &str)| (p.0@, p.1@)) =~= views.take(i as int));
                return Err(invalid_regex(pattern));
            }
            assert(views.take(i as int + 1) =~= views.take(i as int).push((name@, pattern@)));
            assert(old(self).spec_rules() + views.take(i as int + 1) =~= before.push((name@, pattern@)));
            i = i + 1;
        }
        assert(pats.skip(i as int).len() == 0);
        assert(views.take(i as int) =~= views);
        Ok(())
    }

    /// Adds a rule for text to skip; refused, with nothing added, when the
    /// pattern does not compile.
    pub fn ignore_rule(&mut self, pattern: &str) -> (r: Result<(), ()>)
        ensures
            r is Ok == regex_compiles(pattern@),
            final(self).spec_rules() == old(self).spec_rules(),
            final(self).spec_ignore_rules() == if r is Ok {
                old(self).spec_ignore_rules().push((Seq::<char>::empty(), pattern@))
            } else {
                old(self).spec_ignore_rules()
            },
    {
        match Rule::new("", pattern) {
            Ok(rule) => {
                let ghost before = self.ignore_rules@;
                self.ignore_rules.push(rule);
                proof {
                    reveal_strlit("");
                    assert(""@ =~= Seq::<char>::empty());
                }
                assert(rule_views(self.ignore_rules@) =~= rule_views(before).push((Seq::<char>::empty(), pattern@)));
                Ok(())
            },
            Err(_) => Err(()),
        }
    }

    /// Adds the rules for text to skip in order, stopping at the first
    /// pattern that does not compile and reporting its text.
    pub fn ignore_rules(&mut self, rules: &[&str]) -> (r: Result<(), String>)
        ensures
            final(self).spec_rules() == old(self).spec_rules(),
            match first_invalid(rules@.map_values(|p: &str| p@)) {
                None => {
                    &&& r is Ok
                    &&& final(self).spec_ignore_rules() == old(self).spec_ignore_rules()
                        + rules@.map_values(|p: &str| (Seq::<char>::empty(), p@))
                },
                Some(k) => {
                    &&& r matches Err(msg) && msg@ == invalid_regex_message(rules@[k as int]@)
                    &&& final(self).spec_ignore_rules() == old(self).spec_ignore_rules()
                        + rules@.take(k as int).map_values(|p: &str| (Seq::<char>::empty(), p@))
                },
            },
    {
        let ghost pats = rules@.map_values(|p: &str| p@);
        let ghost views = rules@.map_values(|p: &str| (Seq::<char>::empty(), p@));
        let mut i: usize = 0;
        assert(pats.skip(0) =~= pats);
        while i < rules.len()
            invariant
                i <= rules@.len(),
                pats == rules@.map_values(|p: &str| p@),
                views == rules@.map_values(|p: &str| (Seq::<char>::empty(), p@)),
                self.spec_rules() == old(self).spec_rules(),
                self.spec_ignore_rules() == old(self).spec_ignore_rules() + views.take(i as int),
                first_invalid(pats) == match first_invalid(pats.skip(i as int)) {
                    Some(k) => Some((k + i) as nat),
                    None => None::<nat>,
                },
            decreases rules@.len() - i,
        {
            let pattern = rules[i];
            let ghost before = self.spec_ignore_rules();
            assert(pats.skip(i as int).drop_first() =~= pats.skip(i as int + 1));
            assert(pats.skip(i as int)[0] == pattern@);
            if self.ignore_rule(pattern).is_err() {
                assert(rules@.take(i as int).map_values(|p: &str| (Seq::<char>::empty(), p@)) =~= views.take(i as int));
                return Err(invalid_regex(pattern));
            }
            assert(views.take(i as int + 1) =~= views.take(i as int).push((Seq::<char>::empty(), pattern@)));
            assert(old(self).spec_ignore_rules() + views.take(i as int + 1) =~= before.push((Seq::<char>::empty(), pattern@)));
            i = i + 1;
        }
        assert(pats.skip(i as int).len() == 0);
        assert(views.take(i as int) =~= views);
        Ok(())
    }

    /// A lexer over copies of the collected rules.
    pub fn build(&self) -> (r: Lexer)
        ensures
            rule_views(r.spec_rules()) == self.spec_rules(),
            rule_views(r.spec_ignore_rules()) == self.spec_ignore_rules(),
    {
        Lexer::new(duplicate_rules(&self.rules), duplicate_rules(&self.ignore_rules))
    }
}

} // verus!
