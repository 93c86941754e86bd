use vstd::prelude::*;

use core::cmp::Ordering;
use core::marker::PhantomData;

use crate::text::chars_of;

verus! {

/// The usual reducer: a function from the matched children to a node.
pub type PatternFunc<N, E> = fn(&[N]) -> Result<N, E>;

/// One grammar alternative: the nonterminal it derives, the ordered symbols it
/// expects, and the reducer that folds the matched children into a node.
pub struct Pattern<N, E, F> {
    name: String,
    elems: Vec<String>,
    func: F,
    nodes: PhantomData<(N, E)>,
}

impl<N, E, F> Pattern<N, E, F> {
    pub closed spec fn spec_name(&self) -> Seq<char> {
        self.name@
    }

    pub closed spec fn spec_elems(&self) -> Seq<Seq<char>> {
        self.elems@.map_values(|e: String| e@)
    }

    pub closed spec fn spec_func(&self) -> F {
        self.func
    }

    /// Two patterns are the same alternative when name and symbols agree.
    pub open spec fn same_key(&self, other: &Self) -> bool {
        self.key() == other.key()
    }

    pub open spec fn key(&self) -> (Seq<char>, Seq<Seq<char>>) {
        (self.spec_name(), self.spec_elems())
    }

    pub fn new(name: &str, elems: &[&str], func: F) -> (r: Self)
        ensures
            r.spec_name() == name@,
            r.spec_elems() == elems@.map_values(|e: &str| e@),
            r.spec_func() == func,
    {
        let mut v: Vec<String> = Vec::new();
        let mut i: usize = 0;
        while i < elems.len()
            invariant
                i <= elems@.len(),
                v@.len() == i,
                forall|j: int| 0 <= j < i ==> #[trigger] v@[j]@ == elems@[j]@,
            decreases elems@.len() - i,
        {
            v.push(elems[i].to_owned());
            i = i + 1;
        }
        let r = Pattern { name: name.to_owned(), elems: v, func, nodes: PhantomData };
        assert(r.spec_elems() =~= elems@.map_values(|e: &str| e@));
        r
    }

    /// A pattern over symbols already held as strings.
    pub(crate) fn from_parts(name: String, elems: Vec<String>, func: F) -> (r: Self)
        ensures
            r.spec_name() == name@,
            r.spec_elems() == elems@.map_values(|e: String| e@),
            r.spec_func() == func,
    {
        Pattern { name, elems, func, nodes: PhantomData }
    }

    pub fn name(&self) -> (r: &String)
        ensures
            r@ == self.spec_name(),
    {
        &self.name
    }

    pub fn elems(&self) -> (r: &Vec<String>)
        ensures
            r@.map_values(|e: String| e@) == self.spec_elems(),
    {
        &self.elems
    }

    pub fn func(&self) -> (r: &F)
        ensures
            *r == self.spec_func(),
    {
        &self.func
    }
}

/// Lexicographic order of two texts, character by character; a proper
/// prefix comes first. On code points this is the byte order of UTF-8.
pub open spec fn cmp_chars(a: Seq<char>, b: Seq<char>) -> Ordering
    decreases a.len(),
{
    if a.len() == 0 {
        if b.len() == 0 { Ordering::Equal } else { Ordering::Less }
    } else if b.len() == 0 {
        Ordering::Greater
    } else if (a[0] as u32) < (b[0] as u32) {
        Ordering::Less
    } else if (a[0] as u32) > (b[0] as u32) {
        Ordering::Greater
    } else {
        cmp_chars(a.drop_first(), b.drop_first())
    }
}

/// Order of two equally long symbol lists: that of the first pair that differs.
pub open spec fn cmp_words(a: Seq<Seq<char>>, b: Seq<Seq<char>>) -> Ordering
    decreases a.len(),
{
    if a.len() == 0 || b.len() == 0 {
        Ordering::Equal
    } else {
        match cmp_chars(a[0], b[0]) {
            Ordering::Equal => cmp_words(a.drop_first(), b.drop_first()),
            o => o,
        }
    }
}

/// Patterns are ordered by name, then by number of symbols, then symbol by symbol.
pub open spec fn cmp_keys(a: (Seq<char>, Seq<Seq<char>>), b: (Seq<char>, Seq<Seq<char>>)) -> Ordering {
    match cmp_chars(a.0, b.0) {
        Ordering::Equal => if a.1.len() < b.1.len() {
            Ordering::Less
        } else if a.1.len() > b.1.len() {
            Ordering::Greater
        } else {
            cmp_words(a.1, b.1)
        },
        o => o,
    }
}

fn cmp_strings(a: &String, b: &String) -> (r: Ordering)
    ensures
        r == cmp_chars(a@, b@),
{
    let ca = chars_of(a.as_str());
    let cb = chars_of(b.as_str());
    let mut i: usize = 0;
    assert(ca@.skip(0) =~= ca@);
    assert(cb@.skip(0) =~= cb@);
    while i < ca.len() && i < cb.len()
        invariant
            ca@ == a@,
            cb@ == b@,
            i <= ca@.len(),
            i <= cb@.len(),
            cmp_chars(a@, b@) == cmp_chars(ca@.skip(i as int), cb@.skip(i as int)),
        decreases ca@.len() - i,
    {
        assert(ca@.skip(i as int)[0] == ca@[i as int]);
        assert(cb@.skip(i as int)[0] == cb@[i as int]);
        assert(ca@.skip(i as int).drop_first() =~= ca@.skip(i as int + 1));
        assert(cb@.skip(i as int).drop_first() =~= cb@.skip(i as int + 1));
        let x = ca[i] as u32;
        let y = cb[i] as u32;
        if x < y {
            return Ordering::Less;
        }
        if x > y {
            return Ordering::Greater;
        }
        i = i + 1;
    }
    if ca.len() == cb.len() {
        Ordering::Equal
    } else if i == ca.len() {
        Ordering::Less
    } else {
        Ordering::Greater
    }
}

fn cmp_string_lists(a: &Vec<String>, b: &Vec<String>) -> (r: Ordering)
    requires
        a@.len() == b@.len(),
    ensures
        r == cmp_words(a@.map_values(|e: String| e@), b@.map_values(|e: String| e@)),
{
    let ghost wa = a@.map_values(|e: String| e@);
    let ghost wb = b@.map_values(|e: String| e@);
    let mut i: usize = 0;
    assert(wa.skip(0) =~= wa);
    assert(wb.skip(0) =~= wb);
    while i < a.len()
        invariant
            a@.len() == b@.len(),
            wa == a@.map_values(|e: String| e@),
            wb == b@.map_values(|e: String| e@),
            i <= a@.len(),
            cmp_words(wa, wb) == cmp_words(wa.skip(i as int), wb.skip(i as int)),
        decreases a@.len() - i,
    {
        assert(wa.skip(i as int)[0] == a@[i as int]@);
        assert(wb.skip(i as int)[0] == b@[i as int]@);
        assert(wa.skip(i as int).drop_first() =~= wa.skip(i as int + 1));
        assert(wb.skip(i as int).drop_first() =~= wb.skip(i as int + 1));
        let o = cmp_strings(&a[i], &b[i]);
        match o {
            Ordering::Equal => {},
            _ => {
                return o;
            },
        }
        i = i + 1;
    }
    Ordering::Equal
}

/// Element-wise equality of two lists of strings.
fn same_strings(a: &Vec<String>, b: &Vec<String>) -> (r: bool)
    ensures
        r == (a@.map_values(|e: String| e@) == b@.map_values(|e: String| e@)),
{
    if a.len() != b.len() {
        proof {
            assert(a@.map_values(|e: String| e@).len() != b@.map_values(|e: String| e@).len());
        }
        return false;
    }
    let mut i: usize = 0;
    while i < a.len()
        invariant
            a@.len() == b@.len(),
            i <= a@.len(),
            forall|j: int| 0 <= j < i ==> #[trigger] a@[j]@ == b@[j]@,
        decreases a@.len() - i,
    {
        if !(a[i] == b[i]) {
            proof {
                assert(a@.map_values(|e: String| e@)[i as int] != b@.map_values(|e: String| e@)[i as int]);
            }
            return false;
        }
        i = i + 1;
    }
    proof {
        assert(a@.map_values(|e: String| e@) =~= b@.map_values(|e: String| e@));
    }
    true
}

impl<N, E, F: Copy> Pattern<N, E, F> {
    /// A copy of this pattern: the same name, symbols and reducer.
    pub(crate) fn duplicate(&self) -> (r: Self)
        ensures
            r.key() == self.key(),
            r.spec_func() == self.spec_func(),
    {
        let mut v: Vec<String> = Vec::new();
        let mut i: usize = 0;
        while i < self.elems.len()
            invariant
                i <= self.elems@.len(),
                v@.len() == i,
                forall|j: int| 0 <= j < i ==> #[trigger] v@[j]@ == self.elems@[j]@,
            decreases self.elems@.len() - i,
        {
            v.push(self.elems[i].clone());
            i = i + 1;
        }
        let r = Pattern { name: self.name.clone(), elems: v, func: self.func, nodes: PhantomData };
        assert(r.spec_elems() =~= self.spec_elems());
        r
    }
}

impl<N, E, F> PartialEq for Pattern<N, E, F> {
    fn eq(&self, other: &Self) -> (r: bool) {
        self.name == other.name && same_strings(&self.elems, &other.elems)
    }
}

impl<N, E, F> Eq for Pattern<N, E, F> {

}

impl<N, E, F> PartialOrd for Pattern<N, E, F> {
    fn partial_cmp(&self, other: &Self) -> (r: Option<Ordering>) {
        let by_name = cmp_strings(&self.name, &other.name);
        match by_name {
            Ordering::Equal => {},
            _ => {
                return Some(by_name);
            },
        }
        if self.elems.len() < other.elems.len() {
            return Some(Ordering::Less);
        }
        if self.elems.len() > other.elems.len() {
            return Some(Ordering::Greater);
        }
        Some(cmp_string_lists(&self.elems, &other.elems))
    }
}

impl<N, E, F> vstd::std_specs::cmp::PartialOrdSpecImpl for Pattern<N, E, F> {
    open spec fn obeys_partial_cmp_spec() -> bool {
        true
    }

    open spec fn partial_cmp_spec(&self, other: &Self) -> Option<Ordering> {
        Some(cmp_keys(self.key(), other.key()))
    }
}

impl<N, E, F> vstd::std_specs::cmp::PartialEqSpecImpl for Pattern<N, E, F> {
    open spec fn obeys_eq_spec() -> bool {
        true
    }

    open spec fn eq_spec(&self, other: &Self) -> bool {
        self.same_key(other)
    }
}

impl<N, E, F> Pattern<N, E, F> where F: Fn(&[N]) -> Result<N, E> {
    /// Folds the matched children into a node with this pattern's reducer.
    pub fn reduce(&self, children: &[N]) -> (r: Result<N, E>)
        requires
            call_requires(self.spec_func(), (children,)),
        ensures
            call_ensures(self.spec_func(), (children,), r),
    {
        (self.func)(children)
    }
}

} // verus!
