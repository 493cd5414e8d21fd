use vstd::prelude::*;

verus! {

/// The characters with Unicode's `White_Space` property: the boundaries between words.
pub open spec fn is_white(c: char) -> bool {
    ('\u{9}' <= c && c <= '\u{d}') || c == ' ' || c == '\u{85}' || c == '\u{a0}' || c
        == '\u{1680}' || ('\u{2000}' <= c && c <= '\u{200a}') || c == '\u{2028}' || c
        == '\u{2029}' || c == '\u{202f}' || c == '\u{205f}' || c == '\u{3000}'
}

/// The words of `s`: its maximal runs of non-white characters, left to right.
pub open spec fn split_words(s: Seq<char>) -> Seq<Seq<char>>
    decreases s.len(),
{
    if s.len() == 0 {
        seq![]
    } else {
        let before = split_words(s.drop_last());
        let c = s.last();
        if is_white(c) {
            before
        } else if s.len() >= 2 && !is_white(s[s.len() - 2]) {
            before.update(before.len() - 1, before.last().push(c))
        } else {
            before.push(seq![c])
        }
    }
}

/// How many of `words` are among `variants`.
pub open spec fn count_matching(words: Seq<Seq<char>>, variants: Seq<Seq<char>>) -> nat
    decreases words.len(),
{
    if words.len() == 0 {
        0
    } else {
        count_matching(words.drop_last(), variants) + if variants.contains(words.last()) {
            1nat
        } else {
            0nat
        }
    }
}

/// How many words of `text` are one of `variants`.
pub open spec fn count_text(text: Seq<char>, variants: Seq<Seq<char>>) -> nat {
    count_matching(split_words(text), variants)
}

/// A word is counted when it is one of a set of equivalent spellings of the target.
pub struct Matcher {
    variants: Vec<Vec<char>>,
}

impl View for Matcher {
    type V = Seq<Seq<char>>;

    closed spec fn view(&self) -> Seq<Seq<char>> {
        self.variants@.map_values(|v: Vec<char>| v@)
    }
}

fn chars_of(s: &str) -> (r: Vec<char>)
    ensures
        r@ == s@,
{
    let mut r: Vec<char> = Vec::new();
    for c in it: s.chars()
        invariant
            it.seq() == s@,
            r@ == s@.take(it.index() as int),
    {
        r.push(c);
        assert(r@ =~= s@.take(it.index() as int + 1));
    }
    assert(r@ =~= s@);
    r
}

fn same_chars(a: &Vec<char>, b: &Vec<char>) -> (r: bool)
    ensures
        r == (a@ == b@),
{
    if a.len() != b.len() {
        return false;
    }
    let mut i: usize = 0;
    while i < a.len()
        invariant
            a.len() == b.len(),
            i <= a.len(),
            forall|j: int| 0 <= j < i ==> a@[j] == b@[j],
        decreases a.len() - i,
    {
        if a[i] != b[i] {
            return false;
        }
        i = i + 1;
    }
    assert(a@ =~= b@);
    true
}

impl Matcher {
    /// A matcher for the given spellings, compared exactly and case-sensitively.
    pub fn new(variants: &Vec<String>) -> (r: Matcher)
        ensures
            r@ == variants@.map_values(|v: String| v@),
    {
        let mut out: Vec<Vec<char>> = Vec::new();
        for k in 0..variants.len()
            invariant
                out.len() == k,
                forall|j: int| 0 <= j < k ==> out@[j]@ == variants@[j]@,
        {
            let chars = chars_of(variants[k].as_str());
            assert(chars@ == variants@[k as int]@);
            out.push(chars);
        }
        assert(out@.map_values(|v: Vec<char>| v@) =~= variants@.map_values(|v: String| v@));
        Matcher { variants: out }
    }

    /// Whether `word` is one of the spellings.
    pub fn matches(&self, word: &Vec<char>) -> (r: bool)
        ensures
            r == self@.contains(word@),
    {
        let mut k: usize = 0;
        while k < self.variants.len()
            invariant
                k <= self.variants.len(),
                forall|j: int| 0 <= j < k ==> self.variants@[j]@ != word@,
            decreases self.variants.len() - k,
        {
            if same_chars(&self.variants[k], word) {
                assert(self@[k as int] == word@);
                return true;
            }
            k = k + 1;
        }
        proof {
            if self@.contains(word@) {
                let j = choose|j: int| 0 <= j < self@.len() && self@[j] == word@;
                assert(self.variants@[j]@ == word@);
            }
        }
        false
    }

    /// Counts the words of `text` (split at white space) that are one of the spellings.
    pub fn count_in(&self, text: &str) -> (r: usize)
        ensures
            r as nat == count_text(text@, self@),
    {
        // The text's length bounds the number of words, so `count` cannot overflow.
        let n = text.unicode_len();
        let mut count: usize = 0;
        let mut word: Vec<char> = Vec::new();
        let ghost v = self@;
        let ghost mut seen: int = 0;
        for c in it: text.chars()
            invariant
                it.seq() == text@,
                n == text@.len(),
                v == self@,
                seen == it.index(),
                count + word@.len() <= it.index(),
                ({
                    let p = text@.take(it.index() as int);
                    let w = split_words(p);
                    if p.len() > 0 && !is_white(p.last()) {
                        w.len() > 0 && word@.len() > 0 && w.last() == word@ && count == count_matching(
                            w.drop_last(),
                            v,
                        )
                    } else {
                        word@.len() == 0 && count == count_matching(w, v)
                    }
                }),
        {
            let ghost p = text@.take(it.index() as int);
            let ghost q = text@.take(it.index() + 1);
            assert(q.drop_last() =~= p);
            assert(q.last() == c);
            proof {
                if p.len() > 0 {
                    assert(p.last() == q[q.len() - 2]);
                }
            }
            if is_whitespace(c) {
                if word.len() > 0 {
                    if self.matches(&word) {
                        count = count + 1;
                    }
                    word = Vec::new();
                }
            } else {
                word.push(c);
                proof {
                    let w = split_words(q);
                    let sp = split_words(p);
                    if p.len() > 0 && !is_white(p.last()) {
                        assert(w.drop_last() =~= sp.drop_last());
                    } else {
                        assert(w.drop_last() =~= sp);
                        assert(word@ =~= seq![c]);
                    }
                }
            }
            proof {
                seen = seen + 1;
            }
        }
        assert(text@.take(seen) =~= text@);
        if word.len() > 0 {
            if self.matches(&word) {
                count = count + 1;
            }
        }
        count
    }
}

/// Whether `c` separates words.
pub fn is_whitespace(c: char) -> (r: bool)
    ensures
        r == is_white(c),
{
    ('\u{9}' <= c && c <= '\u{d}') || c == ' ' || c == '\u{85}' || c == '\u{a0}' || c
        == '\u{1680}' || ('\u{2000}' <= c && c <= '\u{200a}') || c == '\u{2028}' || c
        == '\u{2029}' || c == '\u{202f}' || c == '\u{205f}' || c == '\u{3000}'
}

} // verus!
