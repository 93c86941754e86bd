use vstd::prelude::*;
use vstd::std_specs::iter::IteratorSpec;

verus! {

/// The characters of `s` in order.
pub(crate) fn chars_of(s: &str) -> (r: Vec<char>)
    ensures
        r@ == s@,
{
    let mut it = s.chars();
    let mut out: Vec<char> = Vec::new();
    loop
        invariant
            out@ + it.remaining() == s@,
            it.obeys_prophetic_iter_laws(),
            it.decrease() is Some,
        decreases it.decrease()->0,
    {
        match it.next() {
            Some(c) => {
                out.push(c);
                assert(out@ + it.remaining() =~= s@);
            },
            None => {
                assert(out@ =~= s@);
                return out;
            },
        }
    }
}

/// Relies on collecting characters into a `String`: the same characters in order.
#[verifier::external_body]
pub(crate) fn string_of(cs: &[char]) -> (r: String)
    ensures
        r@ == cs@,
{
    cs.iter().collect()
}

/// The characters with the Unicode White_Space property.
pub open spec fn is_whitespace(c: char) -> bool {
    ('\u{9}' <= c && c <= '\u{d}') || c == ' ' || c == '\u{85}' || c == '\u{a0}' || c == '\u{1680}'
        || ('\u{2000}' <= c && c <= '\u{200a}') || c == '\u{2028}' || c == '\u{2029}' || c == '\u{202f}'
        || c == '\u{205f}' || c == '\u{3000}'
}

pub fn char_is_whitespace(c: char) -> (r: bool)
    ensures
        r == is_whitespace(c),
{
    ('\u{9}' <= c && c <= '\u{d}') || c == ' ' || c == '\u{85}' || c == '\u{a0}' || c == '\u{1680}'
        || ('\u{2000}' <= c && c <= '\u{200a}') || c == '\u{2028}' || c == '\u{2029}' || c == '\u{202f}'
        || c == '\u{205f}' || c == '\u{3000}'
}

/// The maximal runs of non-whitespace characters of `s`, in order.
pub open spec fn split_words(s: Seq<char>) -> Seq<Seq<char>>
    decreases s.len(),
{
    if s.len() == 0 {
        seq![]
    } else {
        let w = split_words(s.drop_last());
        let c = s.last();
        if is_whitespace(c) {
            w
        } else if s.len() >= 2 && !is_whitespace(s[s.len() - 2]) {
            w.drop_last().push(w.last().push(c))
        } else {
            w.push(seq![c])
        }
    }
}

/// The words of `s`, split at whitespace.
pub fn words(s: &str) -> (r: Vec<String>)
    ensures
        r@.map_values(|w: String| w@) == split_words(s@),
{
    let cs = chars_of(s);
    let mut done: Vec<String> = Vec::new();
    let mut cur: Vec<char> = Vec::new();
    let mut i: usize = 0;
    while i < cs.len()
        invariant
            cs@ == s@,
            i <= cs@.len(),
            cur@.len() > 0 <==> (i > 0 && !is_whitespace(cs@[i - 1])),
            split_words(cs@.take(i as int)) == done@.map_values(|w: String| w@) + if cur@.len() > 0 {
                seq![cur@]
            } else {
                seq![]
            },
        decreases cs@.len() - i,
    {
        let ghost prev = cs@.take(i as int);
        let ghost old_done = done@.map_values(|w: String| w@);
        let ghost old_cur = cur@;
        assert(cs@.take(i as int + 1).drop_last() =~= prev);
        assert(cs@.take(i as int + 1).last() == cs@[i as int]);
        let c = cs[i];
        if char_is_whitespace(c) {
            if cur.len() > 0 {
                let w = string_of(cur.as_slice());
                done.push(w);
                cur = Vec::new();
                assert(done@.map_values(|w: String| w@) =~= old_done + seq![old_cur]);
            }
            assert(split_words(cs@.take(i as int + 1)) == split_words(prev));
        } else {
            cur.push(c);
            proof {
                if old_cur.len() > 0 {
                    assert(cs@.take(i as int + 1)[i - 1] == cs@[i - 1]);
                    let w = old_done + seq![old_cur];
                    assert(w.drop_last() =~= old_done);
                    assert(split_words(cs@.take(i as int + 1)) == w.drop_last().push(w.last().push(c)));
                    assert(split_words(cs@.take(i as int + 1)) =~= old_done + seq![cur@]);
                } else {
                    if i > 0 {
                        assert(cs@.take(i as int + 1)[i - 1] == cs@[i - 1]);
                    }
                    assert(old_done + seq![] =~= old_done);
                    assert(cur@ =~= seq![c]);
                    assert(split_words(cs@.take(i as int + 1)) =~= old_done + seq![cur@]);
                }
            }
        }
        i = i + 1;
    }
    if cur.len() > 0 {
        let ghost old_done = done@.map_values(|w: String| w@);
        let w = string_of(cur.as_slice());
        done.push(w);
        assert(done@.map_values(|w: String| w@) =~= old_done + seq![cur@]);
    }
    assert(cs@.take(cs@.len() as int) =~= s@);
    proof {
        if cur@.len() == 0 {
            assert(done@.map_values(|w: String| w@) + seq![] =~= done@.map_values(|w: String| w@));
        }
    }
    done
}

} // verus!
