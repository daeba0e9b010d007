//! Rule-based cleanup of a dictated sentence.
use vstd::prelude::*;
use crate::chars::{
    capital, capital_char, is_space, is_space_char, is_word_char, same_letter, same_letter_char,
    word_char,
};

verus! {

/// A word boundary lies before index `i`: exactly one of the characters
/// around it is a word character.
pub open spec fn boundary(s: Seq<char>, i: int) -> bool {
    (0 < i && word_char(s[i - 1])) != (i < s.len() && word_char(s[i]))
}

/// The filler `f` stands as a whole word, in any case, at index `i`.
pub open spec fn filler_at(s: Seq<char>, f: Seq<char>, i: int) -> bool {
    0 <= i && i + f.len() <= s.len() && boundary(s, i) && boundary(s, i + f.len())
        && forall|k: int| 0 <= k < f.len() ==> same_letter(#[trigger] s[i + k], f[k])
}

/// The text from index `i` on with every occurrence of `f` removed, each
/// together with the whitespace after it, one comma, and the whitespace after
/// that. `mode` 1 means a filler was just removed, 2 that its comma was too.
pub open spec fn drop_from(s: Seq<char>, f: Seq<char>, i: nat, mode: nat) -> Seq<char>
    decreases s.len() - i, mode,
{
    if i >= s.len() {
        seq![]
    } else if mode == 0 {
        if f.len() > 0 && filler_at(s, f, i as int) {
            drop_from(s, f, i + f.len(), 1)
        } else {
            seq![s[i as int]] + drop_from(s, f, i + 1, 0)
        }
    } else if is_space(s[i as int]) {
        drop_from(s, f, i + 1, mode)
    } else if mode == 1 && s[i as int] == ',' {
        drop_from(s, f, i + 1, 2)
    } else {
        drop_from(s, f, i, 0)
    }
}

/// `s` with every whole-word occurrence of `f` removed.
pub open spec fn drop_filler(s: Seq<char>, f: Seq<char>) -> Seq<char> {
    drop_from(s, f, 0, 0)
}

/// The fillers that dictation leaves behind, in the order they are removed.
pub open spec fn fillers() -> Seq<Seq<char>> {
    seq![
        seq!['u', 'm'],
        seq!['u', 'h'],
        seq!['e', 'r'],
        seq!['a', 'h'],
        seq!['h', 'm', 'm'],
        seq!['l', 'i', 'k', 'e'],
        seq!['y', 'o', 'u', ' ', 'k', 'n', 'o', 'w'],
        seq!['b', 'a', 's', 'i', 'c', 'a', 'l', 'l', 'y'],
        seq!['a', 'c', 't', 'u', 'a', 'l', 'l', 'y'],
    ]
}

/// `s` after removing the first `n` fillers, one after the other.
pub open spec fn drop_fillers_upto(s: Seq<char>, n: nat) -> Seq<char>
    decreases n,
{
    if n == 0 || n > fillers().len() {
        s
    } else {
        drop_filler(drop_fillers_upto(s, (n - 1) as nat), fillers()[n - 1])
    }
}

/// `s` with all fillers removed.
pub open spec fn drop_fillers(s: Seq<char>) -> Seq<char> {
    drop_fillers_upto(s, fillers().len())
}

fn boundary_at(s: &Vec<char>, i: usize) -> (r: bool)
    requires
        i <= s.len(),
    ensures
        r == boundary(s@, i as int),
{
    let before = i > 0 && is_word_char(s[i - 1]);
    let after = i < s.len() && is_word_char(s[i]);
    before != after
}

fn filler_at_index(s: &Vec<char>, f: &Vec<char>, i: usize) -> (r: bool)
    requires
        i <= s.len(),
    ensures
        r == filler_at(s@, f@, i as int),
{
    if f.len() > s.len() - i {
        return false;
    }
    if !boundary_at(s, i) || !boundary_at(s, i + f.len()) {
        return false;
    }
    let mut k: usize = 0;
    while k < f.len()
        invariant
            k <= f.len(),
            i + f.len() <= s.len(),
            forall|j: int| 0 <= j < k ==> same_letter(#[trigger] s@[i + j], f@[j]),
        decreases f.len() - k,
    {
        if !same_letter_char(s[i + k], f[k]) {
            return false;
        }
        k = k + 1;
    }
    true
}

/// Removes every whole-word occurrence of the filler `f` from `s`.
pub fn remove_filler(s: &Vec<char>, f: &Vec<char>) -> (r: Vec<char>)
    ensures
        r@ == drop_filler(s@, f@),
{
    let mut out: Vec<char> = Vec::new();
    let mut i: usize = 0;
    let mut mode: u8 = 0;
    while i < s.len()
        invariant
            i <= s.len(),
            mode <= 2,
            drop_filler(s@, f@) == out@ + drop_from(s@, f@, i as nat, mode as nat),
        decreases s.len() - i, mode,
    {
        if mode == 0 {
            if f.len() > 0 && filler_at_index(s, f, i) {
                i = i + f.len();
                mode = 1;
            } else {
                let c = s[i];
                proof {
                    assert(out@.push(c) + drop_from(s@, f@, (i + 1) as nat, 0) =~= out@ + (seq![c]
                        + drop_from(s@, f@, (i + 1) as nat, 0)));
                }
                out.push(c);
                i = i + 1;
            }
        } else if is_space_char(s[i]) {
            i = i + 1;
        } else if mode == 1 && s[i] == ',' {
            i = i + 1;
            mode = 2;
        } else {
            mode = 0;
        }
    }
    proof {
        assert(out@ + drop_from(s@, f@, i as nat, mode as nat) =~= out@);
    }
    out
}

/// The filler vocabulary.
pub fn filler_words() -> (r: Vec<Vec<char>>)
    ensures
        r@.len() == fillers().len(),
        forall|k: int| 0 <= k < r@.len() ==> (#[trigger] r@[k])@ == fillers()[k],
{
    let r = vec![
        vec!['u', 'm'],
        vec!['u', 'h'],
        vec!['e', 'r'],
        vec!['a', 'h'],
        vec!['h', 'm', 'm'],
        vec!['l', 'i', 'k', 'e'],
        vec!['y', 'o', 'u', ' ', 'k', 'n', 'o', 'w'],
        vec!['b', 'a', 's', 'i', 'c', 'a', 'l', 'l', 'y'],
        vec!['a', 'c', 't', 'u', 'a', 'l', 'l', 'y'],
    ];
    proof {
        assert(r@[0]@ =~= fillers()[0]);
        assert(r@[1]@ =~= fillers()[1]);
        assert(r@[2]@ =~= fillers()[2]);
        assert(r@[3]@ =~= fillers()[3]);
        assert(r@[4]@ =~= fillers()[4]);
        assert(r@[5]@ =~= fillers()[5]);
        assert(r@[6]@ =~= fillers()[6]);
        assert(r@[7]@ =~= fillers()[7]);
        assert(r@[8]@ =~= fillers()[8]);
    }
    r
}

/// Removes all fillers from `s`, one filler after the other.
pub fn remove_fillers(s: &Vec<char>) -> (r: Vec<char>)
    ensures
        r@ == drop_fillers(s@),
{
    let words = filler_words();
    let mut cur: Vec<char> = s.clone();
    let mut n: usize = 0;
    while n < words.len()
        invariant
            words@.len() == fillers().len(),
            forall|k: int| 0 <= k < words@.len() ==> (#[trigger] words@[k])@ == fillers()[k],
            n <= words.len(),
            cur@ == drop_fillers_upto(s@, n as nat),
        decreases words.len() - n,
    {
        cur = remove_filler(&cur, &words[n]);
        n = n + 1;
    }
    cur
}


/// Index just past the run of whitespace that starts at `i`.
pub open spec fn space_end(s: Seq<char>, i: nat) -> nat
    decreases s.len() - i,
{
    if i < s.len() && is_space(s[i as int]) {
        space_end(s, i + 1)
    } else {
        i
    }
}

/// Index just past the run of word characters that starts at `i`.
pub open spec fn word_end(s: Seq<char>, i: nat) -> nat
    decreases s.len() - i,
{
    if i < s.len() && word_char(s[i as int]) {
        word_end(s, i + 1)
    } else {
        i
    }
}

/// A word starts at index `i`.
pub open spec fn word_start(s: Seq<char>, i: nat) -> bool {
    i < s.len() && word_char(s[i as int]) && (i == 0 || !word_char(s[i - 1]))
}

/// From index `j` on stand whitespace and then, as a whole word, the word
/// `s[a..b]` again in any case.
pub open spec fn repeat_after(s: Seq<char>, a: nat, b: nat, j: nat) -> bool {
    let g = space_end(s, j);
    a <= b && g > j && g + (b - a) <= s.len() && word_end(s, g) == g + (b - a) && forall|k: int|
        0 <= k < b - a ==> same_letter(#[trigger] s[g + k], s[a + k])
}

/// The text from index `i` on with repeated words collapsed; `s[a..b]` is the
/// word just kept, if `a < b`.
pub open spec fn unstutter_from(s: Seq<char>, i: nat, a: nat, b: nat) -> Seq<char>
    decreases s.len() - i,
{
    if i >= s.len() {
        seq![]
    } else if a < b && repeat_after(s, a, b, i) {
        unstutter_from(s, (space_end(s, i) + (b - a)) as nat, a, b)
    } else if word_start(s, i) && i < word_end(s, i) <= s.len() {
        s.subrange(i as int, word_end(s, i) as int) + unstutter_from(s, word_end(s, i), i, word_end(s, i))
    } else {
        seq![s[i as int]] + unstutter_from(s, i + 1, i, i)
    }
}

/// `s` with each word that is repeated right after itself kept once.
pub open spec fn unstutter(s: Seq<char>) -> Seq<char> {
    unstutter_from(s, 0, 0, 0)
}

/// The text from index `i` on with whitespace runs collapsed to one space and
/// none at either end. `pending`: a space is owed before the next character;
/// `started`: a character was already kept.
pub open spec fn tidy_from(s: Seq<char>, i: nat, pending: bool, started: bool) -> Seq<char>
    decreases s.len() - i,
{
    if i >= s.len() {
        seq![]
    } else if is_space(s[i as int]) {
        tidy_from(s, i + 1, started, started)
    } else if pending {
        seq![' ', s[i as int]] + tidy_from(s, i + 1, false, true)
    } else {
        seq![s[i as int]] + tidy_from(s, i + 1, false, true)
    }
}

/// `s` with each run of whitespace made one space, and trimmed.
pub open spec fn tidy(s: Seq<char>) -> Seq<char> {
    tidy_from(s, 0, false, false)
}

/// The words that open a question.
pub open spec fn questions() -> Seq<Seq<char>> {
    seq![
        seq!['w', 'h', 'a', 't'],
        seq!['w', 'h', 'e', 'r', 'e'],
        seq!['w', 'h', 'e', 'n'],
        seq!['w', 'h', 'y'],
        seq!['w', 'h', 'o'],
        seq!['h', 'o', 'w'],
        seq!['i', 's'],
        seq!['a', 'r', 'e'],
        seq!['c', 'a', 'n'],
        seq!['c', 'o', 'u', 'l', 'd'],
        seq!['w', 'o', 'u', 'l', 'd'],
        seq!['s', 'h', 'o', 'u', 'l', 'd'],
        seq!['d', 'o'],
        seq!['d', 'o', 'e', 's'],
    ]
}

/// `t` begins with the word `w`, in any case, followed by a space.
pub open spec fn leads_with(t: Seq<char>, w: Seq<char>) -> bool {
    w.len() < t.len() && t[w.len() as int] == ' ' && forall|k: int|
        0 <= k < w.len() ==> same_letter(#[trigger] t[k], w[k])
}

/// `t` reads as a question.
pub open spec fn asks(t: Seq<char>) -> bool {
    exists|j: int| 0 <= j < questions().len() && leads_with(t, #[trigger] questions()[j])
}

/// `c` closes a sentence.
pub open spec fn is_stop(c: char) -> bool {
    c == '.' || c == '!' || c == '?'
}

/// Capitalises tidy text and closes it with a stop; empty text stays empty.
pub open spec fn finish(t: Seq<char>) -> Seq<char> {
    if t.len() == 0 {
        t
    } else {
        let c = t.update(0, capital(t[0]));
        if is_stop(c.last()) {
            c
        } else if asks(c) {
            c.push('?')
        } else {
            c.push('.')
        }
    }
}

/// The cleaned form of a dictated sentence.
pub open spec fn normalize(s: Seq<char>) -> Seq<char> {
    finish(tidy(unstutter(drop_fillers(s))))
}

fn space_end_at(s: &Vec<char>, i: usize) -> (r: usize)
    requires
        i <= s.len(),
    ensures
        r == space_end(s@, i as nat),
        i <= r <= s.len(),
{
    let mut j: usize = i;
    while j < s.len() && is_space_char(s[j])
        invariant
            i <= j <= s.len(),
            space_end(s@, i as nat) == space_end(s@, j as nat),
        decreases s.len() - j,
    {
        j = j + 1;
    }
    j
}

fn word_end_at(s: &Vec<char>, i: usize) -> (r: usize)
    requires
        i <= s.len(),
    ensures
        r == word_end(s@, i as nat),
        i <= r <= s.len(),
{
    let mut j: usize = i;
    while j < s.len() && is_word_char(s[j])
        invariant
            i <= j <= s.len(),
            word_end(s@, i as nat) == word_end(s@, j as nat),
        decreases s.len() - j,
    {
        j = j + 1;
    }
    j
}

fn repeat_after_at(s: &Vec<char>, a: usize, b: usize, j: usize) -> (r: bool)
    requires
        a <= b <= j <= s.len(),
    ensures
        r == repeat_after(s@, a as nat, b as nat, j as nat),
{
    let g = space_end_at(s, j);
    if g <= j {
        return false;
    }
    let n = b - a;
    if n > s.len() - g {
        return false;
    }
    if word_end_at(s, g) != g + n {
        return false;
    }
    let mut k: usize = 0;
    while k < n
        invariant
            k <= n,
            n == b - a,
            a <= b <= j <= s.len(),
            g == space_end(s@, j as nat),
            g > j,
            word_end(s@, g as nat) == g + n,
            g + n <= s.len(),
            a + n <= s.len(),
            forall|m: int| 0 <= m < k ==> same_letter(#[trigger] s@[g + m], s@[a + m]),
        decreases n - k,
    {
        if !same_letter_char(s[g + k], s[a + k]) {
            proof {
                let m = k as int;
                assert(!same_letter(s@[g + m], s@[a + m]));
            }
            return false;
        }
        k = k + 1;
    }
    true
}

/// Collapses each word that is repeated right after itself to its first
/// occurrence.
pub fn remove_stutters(s: &Vec<char>) -> (r: Vec<char>)
    ensures
        r@ == unstutter(s@),
{
    let mut out: Vec<char> = Vec::new();
    let mut i: usize = 0;
    let mut a: usize = 0;
    let mut b: usize = 0;
    while i < s.len()
        invariant
            a <= b <= i <= s.len(),
            unstutter(s@) == out@ + unstutter_from(s@, i as nat, a as nat, b as nat),
        decreases s.len() - i,
    {
        if a < b && repeat_after_at(s, a, b, i) {
            i = space_end_at(s, i) + (b - a);
        } else if is_word_char(s[i]) && (i == 0 || !is_word_char(s[i - 1])) {
            let e = word_end_at(s, i);
            let ghost before = out@;
            let mut k: usize = i;
            while k < e
                invariant
                    i <= k <= e <= s.len(),
                    out@ == before + s@.subrange(i as int, k as int),
                decreases e - k,
            {
                proof {
                    assert(s@.subrange(i as int, k + 1) =~= s@.subrange(i as int, k as int).push(
                        s@[k as int],
                    ));
                }
                out.push(s[k]);
                k = k + 1;
            }
            proof {
                assert(i < e) by {
                    assert(word_end(s@, i as nat) == word_end(s@, (i + 1) as nat));
                    lemma_word_end_bounds(s@, (i + 1) as nat);
                }
            }
            a = i;
            b = e;
            i = e;
        } else {
            let c = s[i];
            proof {
                assert(out@.push(c) + unstutter_from(s@, (i + 1) as nat, i as nat, i as nat) =~= out@
                    + (seq![c] + unstutter_from(s@, (i + 1) as nat, i as nat, i as nat)));
            }
            out.push(c);
            a = i;
            b = i;
            i = i + 1;
        }
    }
    proof {
        assert(out@ + unstutter_from(s@, i as nat, a as nat, b as nat) =~= out@);
    }
    out
}

proof fn lemma_word_end_bounds(s: Seq<char>, i: nat)
    requires
        i <= s.len(),
    ensures
        i <= word_end(s, i) <= s.len(),
    decreases s.len() - i,
{
    if i < s.len() && word_char(s[i as int]) {
        lemma_word_end_bounds(s, i + 1);
    }
}

/// Collapses each run of whitespace to one space and trims both ends.
pub fn tidy_spaces(s: &Vec<char>) -> (r: Vec<char>)
    ensures
        r@ == tidy(s@),
{
    let mut out: Vec<char> = Vec::new();
    let mut i: usize = 0;
    let mut pending = false;
    let mut started = false;
    while i < s.len()
        invariant
            i <= s.len(),
            tidy(s@) == out@ + tidy_from(s@, i as nat, pending, started),
        decreases s.len() - i,
    {
        let c = s[i];
        if is_space_char(c) {
            pending = started;
        } else {
            let ghost rest = tidy_from(s@, (i + 1) as nat, false, true);
            if pending {
                proof {
                    assert(out@.push(' ').push(c) + rest =~= out@ + (seq![' ', c] + rest));
                }
                out.push(' ');
            } else {
                proof {
                    assert(out@.push(c) + rest =~= out@ + (seq![c] + rest));
                }
            }
            out.push(c);
            pending = false;
            started = true;
        }
        i = i + 1;
    }
    proof {
        assert(out@ + tidy_from(s@, i as nat, pending, started) =~= out@);
    }
    out
}

/// The question words.
pub fn question_words() -> (r: Vec<Vec<char>>)
    ensures
        r@.len() == questions().len(),
        forall|k: int| 0 <= k < r@.len() ==> (#[trigger] r@[k])@ == questions()[k],
{
    let r = vec![
        vec!['w', 'h', 'a', 't'],
        vec!['w', 'h', 'e', 'r', 'e'],
        vec!['w', 'h', 'e', 'n'],
        vec!['w', 'h', 'y'],
        vec!['w', 'h', 'o'],
        vec!['h', 'o', 'w'],
        vec!['i', 's'],
        vec!['a', 'r', 'e'],
        vec!['c', 'a', 'n'],
        vec!['c', 'o', 'u', 'l', 'd'],
        vec!['w', 'o', 'u', 'l', 'd'],
        vec!['s', 'h', 'o', 'u', 'l', 'd'],
        vec!['d', 'o'],
        vec!['d', 'o', 'e', 's'],
    ];
    proof {
        assert(r@[0]@ =~= questions()[0]);
        assert(r@[1]@ =~= questions()[1]);
        assert(r@[2]@ =~= questions()[2]);
        assert(r@[3]@ =~= questions()[3]);
        assert(r@[4]@ =~= questions()[4]);
        assert(r@[5]@ =~= questions()[5]);
        assert(r@[6]@ =~= questions()[6]);
        assert(r@[7]@ =~= questions()[7]);
        assert(r@[8]@ =~= questions()[8]);
        assert(r@[9]@ =~= questions()[9]);
        assert(r@[10]@ =~= questions()[10]);
        assert(r@[11]@ =~= questions()[11]);
        assert(r@[12]@ =~= questions()[12]);
        assert(r@[13]@ =~= questions()[13]);
    }
    r
}

fn leads_with_word(t: &Vec<char>, w: &Vec<char>) -> (r: bool)
    ensures
        r == leads_with(t@, w@),
{
    if w.len() >= t.len() || t[w.len()] != ' ' {
        return false;
    }
    let mut k: usize = 0;
    while k < w.len()
        invariant
            k <= w.len() < t.len(),
            t@[w.len() as int] == ' ',
            forall|m: int| 0 <= m < k ==> same_letter(#[trigger] t@[m], w@[m]),
        decreases w.len() - k,
    {
        if !same_letter_char(t[k], w[k]) {
            return false;
        }
        k = k + 1;
    }
    true
}

/// Whether `t` opens with a question word followed by a space.
pub fn is_question(t: &Vec<char>) -> (r: bool)
    ensures
        r == asks(t@),
{
    let words = question_words();
    let mut j: usize = 0;
    while j < words.len()
        invariant
            words@.len() == questions().len(),
            forall|k: int| 0 <= k < words@.len() ==> (#[trigger] words@[k])@ == questions()[k],
            j <= words.len(),
            forall|k: int| 0 <= k < j ==> !leads_with(t@, #[trigger] questions()[k]),
        decreases words.len() - j,
    {
        if leads_with_word(t, &words[j]) {
            proof {
                assert(leads_with(t@, questions()[j as int]));
            }
            return true;
        }
        j = j + 1;
    }
    false
}

/// Capitalises the first character and closes the sentence with `?` when it
/// opens with a question word, with `.` otherwise, unless it already ends
/// with `.`, `!` or `?`. Empty text stays empty.
pub fn finish_sentence(t: Vec<char>) -> (r: Vec<char>)
    ensures
        r@ == finish(t@),
{
    let mut t = t;
    if t.len() == 0 {
        return t;
    }
    let first = capital_char(t[0]);
    t.set(0, first);
    let last = t[t.len() - 1];
    if last == '.' || last == '!' || last == '?' {
        return t;
    }
    if is_question(&t) {
        t.push('?');
    } else {
        t.push('.');
    }
    t
}

/// The characters of `s`.
pub fn chars_of(s: &str) -> (r: Vec<char>)
    ensures
        r@ == s@,
{
    let n = s.unicode_len();
    let mut out: Vec<char> = Vec::new();
    let mut i: usize = 0;
    while i < n
        invariant
            n == s@.len(),
            i <= n,
            out@ == s@.subrange(0, i as int),
        decreases n - i,
    {
        proof {
            assert(s@.subrange(0, i + 1) =~= s@.subrange(0, i as int).push(s@[i as int]));
        }
        out.push(s.get_char(i));
        i = i + 1;
    }
    proof {
        assert(s@.subrange(0, n as int) =~= s@);
    }
    out
}

/// Relies on String's FromIterator<char>: the string holds the characters in
/// order.
#[verifier::external_body]
fn string_of(v: &Vec<char>) -> (r: String)
    ensures
        r@ == v@,
{
    v.iter().collect()
}

/// Cleans up a dictated sentence: removes fillers, collapses repeated words,
/// tidies whitespace, capitalises the first character and closes the
/// sentence with a stop.
pub fn format_text_rule_based(input: &str) -> (r: String)
    ensures
        r@ == normalize(input@),
{
    let s = chars_of(input);
    let s = remove_fillers(&s);
    let s = remove_stutters(&s);
    let s = tidy_spaces(&s);
    let s = finish_sentence(s);
    string_of(&s)
}

/// Every whitespace character in `t` is a plain space.
pub open spec fn plain_spaces(t: Seq<char>) -> bool {
    forall|k: int| 0 <= k < t.len() && is_space(#[trigger] t[k]) ==> t[k] == ' '
}

/// `t` is what whitespace tidying leaves: single plain spaces, none at the ends.
pub open spec fn tidy_shaped(t: Seq<char>) -> bool {
    single_spaced(t) && plain_spaces(t) && (t.len() > 0 ==> !is_space(t[0]) && !is_space(
        t.last(),
    ))
}

/// No two whitespace characters stand next to each other in `t`.
pub open spec fn single_spaced(t: Seq<char>) -> bool {
    forall|k: int| 0 <= k < t.len() - 1 ==> !(is_space(#[trigger] t[k]) && is_space(t[k + 1]))
}

proof fn lemma_capital_not_space(c: char)
    requires
        !is_space(c),
    ensures
        !is_space(capital(c)),
{
}

proof fn lemma_tidy_from_shape(s: Seq<char>, i: nat, pending: bool, started: bool)
    requires
        pending ==> started,
    ensures
        single_spaced(tidy_from(s, i, pending, started)),
        plain_spaces(tidy_from(s, i, pending, started)),
        tidy_from(s, i, pending, started).len() > 0 ==> !is_space(
            tidy_from(s, i, pending, started).last(),
        ),
        !started && tidy_from(s, i, pending, started).len() > 0 ==> !is_space(
            tidy_from(s, i, pending, started)[0],
        ),
    decreases s.len() - i,
{
    if i < s.len() {
        let c = s[i as int];
        if is_space(c) {
            lemma_tidy_from_shape(s, i + 1, started, started);
        } else {
            let rest = tidy_from(s, i + 1, false, true);
            lemma_tidy_from_shape(s, i + 1, false, true);
            let head = if pending {
                seq![' ', c]
            } else {
                seq![c]
            };
            let t = head + rest;
            assert(tidy_from(s, i, pending, started) == t);
            assert forall|k: int| 0 <= k < t.len() - 1 implies !(is_space(#[trigger] t[k]) && is_space(
                t[k + 1],
            )) by {
                if k >= head.len() {
                    assert(t[k] == rest[k - head.len()]);
                    assert(t[k + 1] == rest[k - head.len() + 1]);
                } else if k == head.len() - 1 {
                    assert(t[k] == c);
                }
            }
            if rest.len() > 0 {
                assert(t.last() == rest.last());
            }
            assert forall|k: int| 0 <= k < t.len() && is_space(#[trigger] t[k]) implies t[k]
                == ' ' by {
                if k >= head.len() {
                    assert(t[k] == rest[k - head.len()]);
                }
            }
        }
    }
}

/// A cleaned sentence that is not empty ends with `.`, `!` or `?`.
pub proof fn lemma_normalize_ends_with_stop(s: Seq<char>)
    ensures
        normalize(s).len() > 0 ==> is_stop(normalize(s).last()),
{
}

proof fn lemma_normalize_shape(s: Seq<char>)
    ensures
        tidy_shaped(normalize(s)),
{
    let t = tidy(unstutter(drop_fillers(s)));
    lemma_tidy_from_shape(unstutter(drop_fillers(s)), 0, false, false);
    if t.len() > 0 {
        lemma_capital_not_space(t[0]);
        let c = t.update(0, capital(t[0]));
        assert(single_spaced(c)) by {
            assert forall|k: int| 0 <= k < c.len() - 1 implies !(is_space(#[trigger] c[k])
                && is_space(c[k + 1])) by {
                if k > 0 {
                    assert(c[k] == t[k]);
                }
                assert(c[k + 1] == t[k + 1]);
            }
        }
        assert(plain_spaces(c)) by {
            assert forall|k: int| 0 <= k < c.len() && is_space(#[trigger] c[k]) implies c[k]
                == ' ' by {
                if k > 0 {
                    assert(c[k] == t[k]);
                }
            }
        }
        assert(!is_space(c.last())) by {
            if c.len() > 1 {
                assert(c.last() == t.last());
            }
        }
        if !is_stop(c.last()) {
            let d = if asks(c) {
                '?'
            } else {
                '.'
            };
            let e = c.push(d);
            assert forall|k: int| 0 <= k < e.len() - 1 implies !(is_space(#[trigger] e[k])
                && is_space(e[k + 1])) by {
                if k < c.len() - 1 {
                    assert(e[k] == c[k] && e[k + 1] == c[k + 1]);
                } else {
                    assert(e[k] == c.last());
                }
            }
            assert forall|k: int| 0 <= k < e.len() && is_space(#[trigger] e[k]) implies e[k]
                == ' ' by {
                if k < c.len() {
                    assert(e[k] == c[k]);
                }
            }
            assert(normalize(s) == e);
        }
    }
}

/// A cleaned sentence never holds two whitespace characters in a row.
pub proof fn lemma_normalize_single_spaced(s: Seq<char>)
    ensures
        single_spaced(normalize(s)),
{
    lemma_normalize_shape(s);
}

proof fn lemma_tidy_keeps_shaped(u: Seq<char>, i: nat)
    requires
        tidy_shaped(u),
        i <= u.len(),
        i == 0 || !is_space(u[i as int - 1]),
    ensures
        tidy_from(u, i, false, i > 0) == u.subrange(i as int, u.len() as int),
    decreases u.len() - i,
{
    if i < u.len() {
        if is_space(u[i as int]) {
            assert(i > 0);
            assert(i + 1 < u.len());
            assert(!is_space(u[i as int + 1]));
            lemma_tidy_keeps_shaped(u, i + 2);
            assert(u[i as int] == ' ');
            assert(tidy_from(u, i + 1, true, true) == seq![' ', u[i as int + 1]] + tidy_from(
                u,
                i + 2,
                false,
                true,
            ));
            assert(tidy_from(u, i, false, true) == tidy_from(u, i + 1, true, true));
            assert(u.subrange(i as int, u.len() as int) =~= seq![' ', u[i as int + 1]] + u.subrange(
                i as int + 2,
                u.len() as int,
            ));
        } else {
            lemma_tidy_keeps_shaped(u, i + 1);
            assert(u.subrange(i as int, u.len() as int) =~= seq![u[i as int]] + u.subrange(
                i as int + 1,
                u.len() as int,
            ));
        }
    } else {
        assert(u.subrange(i as int, u.len() as int) =~= seq![]);
    }
}

/// Cleaning is a fixed point on clean text: a cleaned sentence that holds no
/// fillers or repeated words, and whose first character is already its own
/// capital, comes out of a second cleaning unchanged.
pub proof fn lemma_normalize_fixed_point(s: Seq<char>)
    requires
        drop_fillers(normalize(s)) == normalize(s),
        unstutter(normalize(s)) == normalize(s),
        normalize(s).len() > 0 ==> capital(normalize(s)[0]) == normalize(s)[0],
    ensures
        normalize(normalize(s)) == normalize(s),
{
    let y = normalize(s);
    lemma_normalize_shape(s);
    lemma_normalize_ends_with_stop(s);
    lemma_tidy_keeps_shaped(y, 0);
    assert(y.subrange(0, y.len() as int) =~= y);
    assert(tidy(y) == y);
    if y.len() > 0 {
        assert(y.update(0, capital(y[0])) =~= y);
    }
}

} // verus!
