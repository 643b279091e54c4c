use vstd::prelude::*;

verus! {

/// Unicode `White_Space`: the characters that `char::is_whitespace` accepts.
pub open spec fn is_white_space(c: char) -> bool {
    let u = c as u32;
    ||| 0x09 <= u <= 0x0D
    ||| u == 0x20
    ||| u == 0x85
    ||| u == 0xA0
    ||| u == 0x1680
    ||| 0x2000 <= u <= 0x200A
    ||| u == 0x2028
    ||| u == 0x2029
    ||| u == 0x202F
    ||| u == 0x205F
    ||| u == 0x3000
}

/// Whether `c` is a Unicode white-space character.
pub fn is_whitespace_char(c: char) -> (r: bool)
    ensures
        r == is_white_space(c),
{
    let u = c as u32;
    (0x09 <= u && u <= 0x0D) || u == 0x20 || u == 0x85 || u == 0xA0 || u == 0x1680 || (0x2000
        <= u && u <= 0x200A) || u == 0x2028 || u == 0x2029 || u == 0x202F || u == 0x205F || u
        == 0x3000
}

/// The characters of a string slice, in order.
pub fn chars_of(s: &str) -> (r: Vec<char>)
    ensures
        r@ == s@,
{
    let mut out: Vec<char> = Vec::new();
    for c in it: s.chars()
        invariant
            out@ == it.seq().take(it.index() as int),
            it.seq() == s@,
    {
        out.push(c);
    }
    out
}


/// Appends one character to a string.
///
/// Wraps `String::push`, whose documentation states that it appends the
/// given `char` to the end of the string.
#[verifier::external_body]
pub(crate) fn push_char(s: &mut String, c: char)
    ensures
        final(s)@ == old(s)@.push(c),
{
    s.push(c);
}

/// The string made of the characters of `v`, in order.
pub fn string_of(v: &Vec<char>) -> (r: String)
    ensures
        r@ == v@,
{
    let mut out = String::new();
    let n = v.len();
    let mut i: usize = 0;
    while i < n
        invariant
            n == v.len(),
            i <= n,
            out@ == v@.take(i as int),
        decreases n - i,
    {
        push_char(&mut out, v[i]);
        assert(v@.take(i as int + 1) == v@.take(i as int).push(v@[i as int]));
        i += 1;
    }
    assert(v@.take(n as int) == v@);
    out
}


/// The CJK-like code point ranges whose characters recognition grammars treat
/// as words of their own.
pub open spec fn is_cjk_like(c: char) -> bool {
    let u = c as u32;
    ||| 0x2E80 <= u <= 0x2EFF
    ||| 0x2F00 <= u <= 0x2FDF
    ||| 0x3040 <= u <= 0x309F
    ||| 0x30A0 <= u <= 0x30FF
    ||| 0x3100 <= u <= 0x312F
    ||| 0x31A0 <= u <= 0x31BF
    ||| 0x31C0 <= u <= 0x31EF
    ||| 0x31F0 <= u <= 0x31FF
    ||| 0x3400 <= u <= 0x4DBF
    ||| 0x4E00 <= u <= 0x9FFF
    ||| 0xF900 <= u <= 0xFAFF
    ||| 0xFE30 <= u <= 0xFE4F
    ||| 0xFF66 <= u <= 0xFF9D
    ||| 0x20000 <= u <= 0x2A6DF
    ||| 0x2A700 <= u <= 0x2B73F
    ||| 0x2B740 <= u <= 0x2B81F
    ||| 0x2B820 <= u <= 0x2CEAF
    ||| 0x2CEB0 <= u <= 0x2EBEF
    ||| 0x30000 <= u <= 0x3134F
}

/// Whether `c` lies in one of the CJK-like ranges.
pub fn is_cjk_like_char(c: char) -> (r: bool)
    ensures
        r == is_cjk_like(c),
{
    let u = c as u32;
    (0x2E80 <= u && u <= 0x2EFF) || (0x2F00 <= u && u <= 0x2FDF) || (0x3040 <= u && u <= 0x309F)
        || (0x30A0 <= u && u <= 0x30FF) || (0x3100 <= u && u <= 0x312F) || (0x31A0 <= u && u
        <= 0x31BF) || (0x31C0 <= u && u <= 0x31EF) || (0x31F0 <= u && u <= 0x31FF) || (0x3400
        <= u && u <= 0x4DBF) || (0x4E00 <= u && u <= 0x9FFF) || (0xF900 <= u && u <= 0xFAFF)
        || (0xFE30 <= u && u <= 0xFE4F) || (0xFF66 <= u && u <= 0xFF9D) || (0x20000 <= u && u
        <= 0x2A6DF) || (0x2A700 <= u && u <= 0x2B73F) || (0x2B740 <= u && u <= 0x2B81F) || (
    0x2B820 <= u && u <= 0x2CEAF) || (0x2CEB0 <= u && u <= 0x2EBEF) || (0x30000 <= u && u
        <= 0x3134F)
}

/// Closes the word being read: a non-empty `cur` joins the finished words.
pub open spec fn flush(done: Seq<Seq<char>>, cur: Seq<char>) -> Seq<Seq<char>> {
    if cur.len() > 0 {
        done.push(cur)
    } else {
        done
    }
}

/// Reads `s` left to right: the finished words and the word being read.
/// A word is a maximal run of characters that are not white space.
pub open spec fn scan_words(s: Seq<char>) -> (Seq<Seq<char>>, Seq<char>)
    decreases s.len(),
{
    if s.len() == 0 {
        (Seq::empty(), Seq::empty())
    } else {
        let prev = scan_words(s.drop_last());
        let c = s.last();
        if is_white_space(c) {
            (flush(prev.0, prev.1), Seq::empty())
        } else {
            (prev.0, prev.1.push(c))
        }
    }
}

/// The words of `s`: its maximal runs of non-white-space characters.
pub open spec fn words(s: Seq<char>) -> Seq<Seq<char>> {
    flush(scan_words(s).0, scan_words(s).1)
}

/// `parts` joined with `sep` between neighbours.
pub open spec fn join_with(parts: Seq<Seq<char>>, sep: Seq<char>) -> Seq<char>
    decreases parts.len(),
{
    if parts.len() == 0 {
        Seq::empty()
    } else if parts.len() == 1 {
        parts[0]
    } else {
        join_with(parts.drop_last(), sep) + sep + parts.last()
    }
}

/// `s` with each run of white space between words replaced by one space and
/// leading and trailing white space removed.
pub open spec fn collapsed(s: Seq<char>) -> Seq<char> {
    join_with(words(s), seq![' '])
}

/// Reads `s` left to right into grammar tokens: white space ends a token, a
/// CJK-like character is a token of its own, other characters extend the
/// current token.
pub open spec fn scan_grammar(s: Seq<char>) -> (Seq<Seq<char>>, Seq<char>)
    decreases s.len(),
{
    if s.len() == 0 {
        (Seq::empty(), Seq::empty())
    } else {
        let prev = scan_grammar(s.drop_last());
        let c = s.last();
        if is_white_space(c) {
            (flush(prev.0, prev.1), Seq::empty())
        } else if is_cjk_like(c) {
            (flush(prev.0, prev.1).push(seq![c]), Seq::empty())
        } else {
            (prev.0, prev.1.push(c))
        }
    }
}

/// The grammar tokens of `s`.
pub open spec fn grammar_tokens(s: Seq<char>) -> Seq<Seq<char>> {
    flush(scan_grammar(s).0, scan_grammar(s).1)
}

/// The default recognition grammar of a phrase: `None` when the phrase holds
/// no word, else its grammar tokens joined by single spaces.
pub open spec fn default_grammar(s: Seq<char>) -> Option<Seq<char>> {
    if words(s).len() == 0 {
        None
    } else {
        Some(join_with(grammar_tokens(s), seq![' ']))
    }
}

/// The Unicode lowercase mapping of `c`, as `char::to_lowercase` yields it.
pub uninterp spec fn unicode_lowercase(c: char) -> Seq<char>;

/// Lowercases one character.
///
/// Wraps `char::to_lowercase`; the contract ties the result to the
/// Unicode lowercase mapping of `c`, which this crate leaves unnamed beyond
/// `unicode_lowercase`, and says, as the documentation of `ToLowercase`
/// does, that the mapping yields at least one character.
#[verifier::external_body]
fn lowercase_of(c: char) -> (r: Vec<char>)
    ensures
        r@ == unicode_lowercase(c),
        r@.len() >= 1,
{
    c.to_lowercase().collect()
}

/// The matching key of `s`: its non-white-space characters, each replaced by
/// its lowercase mapping.
pub open spec fn matching_key(s: Seq<char>) -> Seq<char>
    decreases s.len(),
{
    if s.len() == 0 {
        Seq::empty()
    } else if is_white_space(s.last()) {
        matching_key(s.drop_last())
    } else {
        matching_key(s.drop_last()) + unicode_lowercase(s.last())
    }
}

/// The characters of `s` with `between` inserted between neighbours.
pub open spec fn interleaved(s: Seq<char>, between: Seq<char>) -> Seq<char> {
    join_with(s.map_values(|c: char| seq![c]), between)
}

proof fn lemma_join_push(parts: Seq<Seq<char>>, sep: Seq<char>, last: Seq<char>)
    ensures
        join_with(parts.push(last), sep) == if parts.len() == 0 {
            last
        } else {
            join_with(parts, sep) + sep + last
        },
{
    assert(parts.push(last).drop_last() == parts);
}

/// Appends a word to a list of words.
pub fn push_word(done: &mut Vec<Vec<char>>, w: Vec<char>)
    ensures
        final(done).deep_view() == old(done).deep_view().push(w@),
{
    let ghost before = done.deep_view();
    let ghost wv = w@;
    assert(w.deep_view() =~= w@);
    done.push(w);
    assert(done.deep_view() =~= before.push(wv));
}

/// The words of `chars`, in order.
pub fn split_words(chars: &Vec<char>) -> (r: Vec<Vec<char>>)
    ensures
        r.deep_view() == words(chars@),
{
    let mut done: Vec<Vec<char>> = Vec::new();
    let mut cur: Vec<char> = Vec::new();
    let n = chars.len();
    let mut i: usize = 0;
    while i < n
        invariant
            n == chars.len(),
            i <= n,
            (done.deep_view(), cur@) == scan_words(chars@.take(i as int)),
        decreases n - i,
    {
        let c = chars[i];
        assert(chars@.take(i as int + 1).drop_last() == chars@.take(i as int));
        if is_whitespace_char(c) {
            if cur.len() > 0 {
                push_word(&mut done, cur);
                cur = Vec::new();
            }
        } else {
            cur.push(c);
        }
        i += 1;
    }
    assert(chars@.take(n as int) == chars@);
    if cur.len() > 0 {
        push_word(&mut done, cur);
    }
    done
}

/// The grammar tokens of `chars`, in order.
pub fn split_grammar_tokens(chars: &Vec<char>) -> (r: Vec<Vec<char>>)
    ensures
        r.deep_view() == grammar_tokens(chars@),
{
    let mut done: Vec<Vec<char>> = Vec::new();
    let mut cur: Vec<char> = Vec::new();
    let n = chars.len();
    let mut i: usize = 0;
    while i < n
        invariant
            n == chars.len(),
            i <= n,
            (done.deep_view(), cur@) == scan_grammar(chars@.take(i as int)),
        decreases n - i,
    {
        let c = chars[i];
        assert(chars@.take(i as int + 1).drop_last() == chars@.take(i as int));
        if is_whitespace_char(c) {
            if cur.len() > 0 {
                push_word(&mut done, cur);
                cur = Vec::new();
            }
        } else if is_cjk_like_char(c) {
            if cur.len() > 0 {
                push_word(&mut done, cur);
                cur = Vec::new();
            }
            let single = vec![c];
            assert(single@ =~= seq![c]);
            push_word(&mut done, single);
        } else {
            cur.push(c);
        }
        i += 1;
    }
    assert(chars@.take(n as int) == chars@);
    if cur.len() > 0 {
        push_word(&mut done, cur);
    }
    done
}

/// `parts` joined with `sep` between neighbours.
pub fn join_chars(parts: &Vec<Vec<char>>, sep: &Vec<char>) -> (r: Vec<char>)
    ensures
        r@ == join_with(parts.deep_view(), sep@),
{
    let mut out: Vec<char> = Vec::new();
    let n = parts.len();
    let mut i: usize = 0;
    while i < n
        invariant
            n == parts.len(),
            n == parts.deep_view().len(),
            i <= n,
            out@ == join_with(parts.deep_view().take(i as int), sep@),
        decreases n - i,
    {
        let ghost pre = parts.deep_view().take(i as int);
        proof {
            lemma_join_push(pre, sep@, parts.deep_view()[i as int]);
            assert(parts.deep_view().take(i as int + 1) == pre.push(parts.deep_view()[i as int]));
        }
        if i > 0 {
            append_chars(&mut out, sep);
        }
        append_chars(&mut out, &parts[i]);
        i += 1;
    }
    assert(parts.deep_view().take(n as int) == parts.deep_view());
    out
}

/// Appends the characters of `tail` to `v`.
pub fn append_chars(v: &mut Vec<char>, tail: &Vec<char>)
    ensures
        final(v)@ == old(v)@ + tail@,
{
    let n = tail.len();
    let mut i: usize = 0;
    while i < n
        invariant
            n == tail.len(),
            i <= n,
            v@ == old(v)@ + tail@.take(i as int),
        decreases n - i,
    {
        v.push(tail[i]);
        assert(tail@.take(i as int + 1) == tail@.take(i as int).push(tail@[i as int]));
        i += 1;
    }
    assert(tail@.take(n as int) == tail@);
}

/// `s` collapsed: words joined by single spaces.
pub fn collapse_whitespace_chars(s: &str) -> (r: String)
    ensures
        r@ == collapsed(s@),
{
    let chars = chars_of(s);
    let parts = split_words(&chars);
    let space = vec![' '];
    assert(space@ =~= seq![' ']);
    let joined = join_chars(&parts, &space);
    string_of(&joined)
}

/// The default recognition grammar of a phrase.
pub fn default_grammar_of(s: &str) -> (r: Option<String>)
    ensures
        r is None <==> default_grammar(s@) is None,
        r matches Some(g) ==> default_grammar(s@) == Some(g@),
{
    let chars = chars_of(s);
    let parts = split_words(&chars);
    if parts.len() == 0 {
        return None;
    }
    let tokens = split_grammar_tokens(&chars);
    let space = vec![' '];
    assert(space@ =~= seq![' ']);
    let joined = join_chars(&tokens, &space);
    Some(string_of(&joined))
}

/// The matching key of `s`: white space removed, the rest lowercased.
pub fn matching_key_of(s: &str) -> (r: String)
    ensures
        r@ == matching_key(s@),
        r@.len() == 0 <==> is_blank(s@),
{
    let chars = chars_of(s);
    let mut out: Vec<char> = Vec::new();
    let n = chars.len();
    let mut i: usize = 0;
    while i < n
        invariant
            n == chars.len(),
            i <= n,
            out@ == matching_key(chars@.take(i as int)),
            out@.len() == 0 <==> is_blank(chars@.take(i as int)),
        decreases n - i,
    {
        let c = chars[i];
        let ghost before = chars@.take(i as int);
        let ghost after = chars@.take(i as int + 1);
        assert(after.drop_last() == before);
        assert(after.last() == c);
        if !is_whitespace_char(c) {
            let lower = lowercase_of(c);
            append_chars(&mut out, &lower);
            assert(!is_white_space(after[i as int]));
        } else {
            assert(is_blank(after) <==> is_blank(before)) by {
                if is_blank(before) {
                    assert forall|j: int| 0 <= j < after.len() implies is_white_space(#[trigger] after[j]) by {
                        if j < i {
                            assert(after[j] == before[j]);
                        }
                    }
                }
                if is_blank(after) {
                    assert forall|j: int| 0 <= j < before.len() implies is_white_space(#[trigger] before[j]) by {
                        assert(after[j] == before[j]);
                    }
                }
            }
        }
        i += 1;
    }
    assert(chars@.take(n as int) == chars@);
    string_of(&out)
}

/// The characters of `s` with `between` inserted between neighbours.
pub fn interleave_chars(s: &str, between: &str) -> (r: String)
    ensures
        r@ == interleaved(s@, between@),
{
    let chars = chars_of(s);
    let sep = chars_of(between);
    let mut parts: Vec<Vec<char>> = Vec::new();
    let n = chars.len();
    let mut i: usize = 0;
    while i < n
        invariant
            n == chars.len(),
            i <= n,
            parts.deep_view() == chars@.take(i as int).map_values(|c: char| seq![c]),
        decreases n - i,
    {
        let single = vec![chars[i]];
        assert(single@ =~= seq![chars@[i as int]]);
        push_word(&mut parts, single);
        assert(parts.deep_view() =~= chars@.take(i as int + 1).map_values(|c: char| seq![c]));
        i += 1;
    }
    assert(chars@.take(n as int) == chars@);
    let joined = join_chars(&parts, &sep);
    string_of(&joined)
}


/// How many characters at the front of `s` satisfy `p`.
pub open spec fn leading_count(s: Seq<char>, p: spec_fn(char) -> bool) -> nat
    decreases s.len(),
{
    if s.len() > 0 && p(s[0]) {
        1 + leading_count(s.drop_first(), p)
    } else {
        0
    }
}

/// How many characters at the back of `s` satisfy `p`.
pub open spec fn trailing_count(s: Seq<char>, p: spec_fn(char) -> bool) -> nat
    decreases s.len(),
{
    if s.len() > 0 && p(s.last()) {
        1 + trailing_count(s.drop_last(), p)
    } else {
        0
    }
}

/// `s` without the characters satisfying `p` at either end.
pub open spec fn strip_ends(s: Seq<char>, p: spec_fn(char) -> bool) -> Seq<char> {
    let rest = s.skip(leading_count(s, p) as int);
    rest.take(rest.len() - trailing_count(rest, p))
}

/// `s` without white space at either end, as `str::trim` gives it.
pub open spec fn trimmed(s: Seq<char>) -> Seq<char> {
    strip_ends(s, |c: char| is_white_space(c))
}

/// Whether `s` holds nothing but white space.
pub open spec fn is_blank(s: Seq<char>) -> bool {
    forall|i: int| 0 <= i < s.len() ==> is_white_space(#[trigger] s[i])
}

proof fn lemma_leading_bounds(s: Seq<char>, p: spec_fn(char) -> bool)
    ensures
        leading_count(s, p) <= s.len(),
        forall|i: int| 0 <= i < leading_count(s, p) ==> p(#[trigger] s[i]),
        leading_count(s, p) < s.len() ==> !p(s[leading_count(s, p) as int]),
    decreases s.len(),
{
    if s.len() > 0 && p(s[0]) {
        lemma_leading_bounds(s.drop_first(), p);
        assert forall|i: int| 0 <= i < leading_count(s, p) implies p(#[trigger] s[i]) by {
            if i > 0 {
                assert(s[i] == s.drop_first()[i - 1]);
            }
        }
    }
}

proof fn lemma_trailing_bounds(s: Seq<char>, p: spec_fn(char) -> bool)
    ensures
        trailing_count(s, p) <= s.len(),
        forall|i: int| s.len() - trailing_count(s, p) <= i < s.len() ==> p(#[trigger] s[i]),
        trailing_count(s, p) < s.len() ==> !p(s[s.len() - trailing_count(s, p) - 1]),
    decreases s.len(),
{
    if s.len() > 0 && p(s.last()) {
        lemma_trailing_bounds(s.drop_last(), p);
        assert forall|i: int| s.len() - trailing_count(s, p) <= i < s.len() implies p(#[trigger] s[i]) by {
            if i < s.len() - 1 {
                assert(s[i] == s.drop_last()[i]);
            }
        }
    }
}

/// What `strip_ends` keeps is a run of `s` starting after the stripped
/// front, and the run neither starts nor ends with a character satisfying
/// `p`.
pub proof fn lemma_strip_ends_run(s: Seq<char>, p: spec_fn(char) -> bool)
    ensures
        leading_count(s, p) + strip_ends(s, p).len() <= s.len(),
        strip_ends(s, p) == s.subrange(
            leading_count(s, p) as int,
            (leading_count(s, p) + strip_ends(s, p).len()) as int,
        ),
        strip_ends(s, p).len() > 0 ==> !p(strip_ends(s, p)[0]) && !p(strip_ends(s, p).last()),
{
    lemma_leading_bounds(s, p);
    let a = leading_count(s, p);
    let rest = s.skip(a as int);
    lemma_trailing_bounds(rest, p);
    let r = strip_ends(s, p);
    assert(r =~= s.subrange(a as int, (a + r.len()) as int));
    if r.len() > 0 {
        assert(r[0] == s[a as int]);
        assert(r.last() == rest[rest.len() - trailing_count(rest, p) - 1]);
    }
}

/// A text that neither starts nor ends with a character satisfying `p` is
/// its own stripped text.
pub proof fn lemma_strip_ends_unchanged(s: Seq<char>, p: spec_fn(char) -> bool)
    requires
        s.len() > 0 ==> !p(s[0]) && !p(s.last()),
    ensures
        strip_ends(s, p) == s,
{
    assert(leading_count(s, p) == 0);
    assert(s.skip(0) =~= s);
    assert(trailing_count(s, p) == 0);
    assert(s.take(s.len() as int) =~= s);
}

/// `s` without white space at either end.
pub fn trim_chars(s: &Vec<char>) -> (r: Vec<char>)
    ensures
        r@ == trimmed(s@),
{
    let ghost p = |c: char| is_white_space(c);
    proof {
        lemma_leading_bounds(s@, p);
    }
    let n = s.len();
    let mut a: usize = 0;
    while a < n && is_whitespace_char(s[a])
        invariant
            n == s@.len(),
            p == (|c: char| is_white_space(c)),
            a <= leading_count(s@, p),
            leading_count(s@, p) <= n,
            forall|i: int| 0 <= i < leading_count(s@, p) ==> p(#[trigger] s@[i]),
            leading_count(s@, p) < n ==> !p(s@[leading_count(s@, p) as int]),
        decreases n - a,
    {
        a += 1;
    }
    assert(a == leading_count(s@, p));
    let ghost rest = s@.skip(a as int);
    proof {
        lemma_trailing_bounds(rest, p);
    }
    let mut b: usize = n;
    while b > a && is_whitespace_char(s[b - 1])
        invariant
            n == s@.len(),
            a <= b <= n,
            p == (|c: char| is_white_space(c)),
            rest == s@.skip(a as int),
            n - b <= trailing_count(rest, p),
            trailing_count(rest, p) <= rest.len(),
            forall|i: int| rest.len() - trailing_count(rest, p) <= i < rest.len() ==> p(#[trigger] rest[i]),
            trailing_count(rest, p) < rest.len() ==> !p(rest[rest.len() - trailing_count(rest, p) - 1]),
        decreases b,
    {
        assert(s@[b - 1] == rest[b - 1 - a]);
        b -= 1;
    }
    assert(n - b == trailing_count(rest, p)) by {
        if b > a {
            assert(s@[b - 1] == rest[b - 1 - a]);
        }
    }
    let out = slice_chars(s, a, b);
    assert(out@ =~= rest.take(rest.len() - trailing_count(rest, p)));
    out
}

/// `s` without the character `d` at either end.
pub fn strip_char_ends(s: &Vec<char>, d: char) -> (r: Vec<char>)
    ensures
        r@ == strip_ends(s@, |c: char| c == d),
{
    let ghost p = |c: char| c == d;
    proof {
        lemma_leading_bounds(s@, p);
    }
    let n = s.len();
    let mut a: usize = 0;
    while a < n && s[a] == d
        invariant
            n == s@.len(),
            p == (|c: char| c == d),
            a <= leading_count(s@, p),
            leading_count(s@, p) <= n,
            forall|i: int| 0 <= i < leading_count(s@, p) ==> p(#[trigger] s@[i]),
            leading_count(s@, p) < n ==> !p(s@[leading_count(s@, p) as int]),
        decreases n - a,
    {
        a += 1;
    }
    assert(a == leading_count(s@, p));
    let ghost rest = s@.skip(a as int);
    proof {
        lemma_trailing_bounds(rest, p);
    }
    let mut b: usize = n;
    while b > a && s[b - 1] == d
        invariant
            n == s@.len(),
            a <= b <= n,
            p == (|c: char| c == d),
            rest == s@.skip(a as int),
            n - b <= trailing_count(rest, p),
            trailing_count(rest, p) <= rest.len(),
            forall|i: int| rest.len() - trailing_count(rest, p) <= i < rest.len() ==> p(#[trigger] rest[i]),
            trailing_count(rest, p) < rest.len() ==> !p(rest[rest.len() - trailing_count(rest, p) - 1]),
        decreases b,
    {
        assert(s@[b - 1] == rest[b - 1 - a]);
        b -= 1;
    }
    assert(n - b == trailing_count(rest, p)) by {
        if b > a {
            assert(s@[b - 1] == rest[b - 1 - a]);
        }
    }
    let out = slice_chars(s, a, b);
    assert(out@ =~= rest.take(rest.len() - trailing_count(rest, p)));
    out
}

/// The characters of `s` from `from` up to, not including, `to`.
pub fn slice_chars(s: &Vec<char>, from: usize, to: usize) -> (r: Vec<char>)
    requires
        from <= to <= s@.len(),
    ensures
        r@ == s@.subrange(from as int, to as int),
{
    let mut out: Vec<char> = Vec::new();
    let mut i = from;
    while i < to
        invariant
            from <= i <= to,
            to <= s@.len(),
            out@ == s@.subrange(from as int, i as int),
        decreases to - i,
    {
        out.push(s[i]);
        assert(s@.subrange(from as int, i as int + 1) == s@.subrange(from as int, i as int).push(s@[i as int]));
        i += 1;
    }
    out
}

/// `s` without white space at either end.
pub fn trim_str(s: &str) -> (r: String)
    ensures
        r@ == trimmed(s@),
{
    let chars = chars_of(s);
    let t = trim_chars(&chars);
    string_of(&t)
}

/// Whether `s` holds nothing but white space.
pub fn is_blank_str(s: &str) -> (r: bool)
    ensures
        r == is_blank(s@),
{
    let chars = chars_of(s);
    let n = chars.len();
    let mut i: usize = 0;
    while i < n
        invariant
            n == chars@.len(),
            chars@ == s@,
            i <= n,
            forall|j: int| 0 <= j < i ==> is_white_space(#[trigger] chars@[j]),
        decreases n - i,
    {
        if !is_whitespace_char(chars[i]) {
            return false;
        }
        i += 1;
    }
    true
}

/// Text helpers shared by string slices and owned strings.
pub trait StringUtils {
    /// The characters of the text.
    spec fn char_seq(&self) -> Seq<char>;

    /// The characters with `between` inserted between neighbours, e.g.
    /// `"hello"` with `" "` gives `"h e l l o"`.
    fn add_between_chars(&self, between: &str) -> (r: String)
        ensures
            r@ == interleaved(self.char_seq(), between@),
    ;

    /// The words of the text joined by single spaces.
    fn collapse_whitespace(&self) -> (r: String)
        ensures
            r@ == collapsed(self.char_seq()),
    ;

    /// The default recognition grammar: `None` for a text without words,
    /// else the grammar tokens joined by single spaces, where each CJK-like
    /// character stands alone and other words are kept whole.
    fn build_default_vosk_grammar(&self) -> (r: Option<String>)
        ensures
            r is None <==> default_grammar(self.char_seq()) is None,
            r matches Some(g) ==> default_grammar(self.char_seq()) == Some(g@),
    ;

    /// The text with white space removed and the rest lowercased.
    fn normalize_text_for_matching(&self) -> (r: String)
        ensures
            r@ == matching_key(self.char_seq()),
    ;
}

impl StringUtils for str {
    open spec fn char_seq(&self) -> Seq<char> {
        self@
    }

    fn add_between_chars(&self, between: &str) -> (r: String) {
        interleave_chars(self, between)
    }

    fn collapse_whitespace(&self) -> (r: String) {
        collapse_whitespace_chars(self)
    }

    fn build_default_vosk_grammar(&self) -> (r: Option<String>) {
        default_grammar_of(self)
    }

    fn normalize_text_for_matching(&self) -> (r: String) {
        matching_key_of(self)
    }
}

impl StringUtils for String {
    open spec fn char_seq(&self) -> Seq<char> {
        self@
    }

    fn add_between_chars(&self, between: &str) -> (r: String) {
        interleave_chars(self.as_str(), between)
    }

    fn collapse_whitespace(&self) -> (r: String) {
        collapse_whitespace_chars(self.as_str())
    }

    fn build_default_vosk_grammar(&self) -> (r: Option<String>) {
        default_grammar_of(self.as_str())
    }

    fn normalize_text_for_matching(&self) -> (r: String) {
        matching_key_of(self.as_str())
    }
}

/// Emptiness of an optional string.
pub trait StringOptionUtils {
    /// Whether the value is absent or an empty string.
    spec fn absent_or_empty(&self) -> bool;

    /// `true` for `None` and for `Some` of an empty string.
    fn is_empty(&self) -> (r: bool)
        ensures
            r == self.absent_or_empty(),
    ;
}

impl StringOptionUtils for Option<String> {
    open spec fn absent_or_empty(&self) -> bool {
        match self {
            Some(s) => s@.len() == 0,
            None => true,
        }
    }

    fn is_empty(&self) -> (r: bool) {
        match self {
            Some(s) => s.as_str().unicode_len() == 0,
            None => true,
        }
    }
}


/// Whether `h` occurs in `s` at position `i`.
pub open spec fn occurs_at(s: Seq<char>, h: Seq<char>, i: int) -> bool {
    0 <= i && i + h.len() <= s.len() && s.subrange(i, i + h.len()) == h
}

/// Whether `h` occurs somewhere in `s`.
pub open spec fn has_substring(s: Seq<char>, h: Seq<char>) -> bool {
    exists|i: int| occurs_at(s, h, i)
}

/// Whether `s` begins with `p`.
pub open spec fn has_prefix(s: Seq<char>, p: Seq<char>) -> bool {
    p.len() <= s.len() && s.take(p.len() as int) == p
}

/// Whether the characters of `h` stand in `s` from position `i` on.
fn matches_at(s: &Vec<char>, h: &Vec<char>, i: usize) -> (r: bool)
    requires
        i + h@.len() <= s@.len(),
    ensures
        r == (s@.subrange(i as int, i + h@.len()) == h@),
{
    let hl = h.len();
    let mut j: usize = 0;
    while j < hl
        invariant
            hl == h@.len(),
            i + hl <= s@.len(),
            s@.len() == s.len(),
            j <= hl,
            forall|t: int| 0 <= t < j ==> s@[i + t] == h@[t],
        decreases hl - j,
    {
        if s[i + j] != h[j] {
            assert(s@.subrange(i as int, i + hl)[j as int] != h@[j as int]);
            return false;
        }
        j += 1;
    }
    assert(s@.subrange(i as int, i + hl) =~= h@);
    true
}

/// Whether `needle` occurs in `hay`.
pub fn str_contains(hay: &str, needle: &str) -> (r: bool)
    ensures
        r == has_substring(hay@, needle@),
{
    let s = chars_of(hay);
    let h = chars_of(needle);
    if h.len() > s.len() {
        assert forall|i: int| !occurs_at(hay@, needle@, i) by {}
        return false;
    }
    let last = s.len() - h.len();
    let mut i: usize = 0;
    while i <= last
        invariant
            s@ == hay@,
            h@ == needle@,
            last == s@.len() - h@.len(),
            h@.len() <= s@.len(),
            forall|k: int| 0 <= k < i ==> !occurs_at(hay@, needle@, k),
        decreases last + 1 - i,
    {
        if matches_at(&s, &h, i) {
            assert(occurs_at(hay@, needle@, i as int));
            return true;
        }
        if i == last {
            assert forall|k: int| !occurs_at(hay@, needle@, k) by {
                if occurs_at(hay@, needle@, k) {
                    assert(k <= last);
                }
            }
            return false;
        }
        i += 1;
    }
    false
}

/// Whether `s` begins with `p`.
pub fn str_starts_with(s: &str, p: &str) -> (r: bool)
    ensures
        r == has_prefix(s@, p@),
{
    let a = chars_of(s);
    let b = chars_of(p);
    if b.len() > a.len() {
        return false;
    }
    let r = matches_at(&a, &b, 0);
    assert(a@.subrange(0, b@.len() as int) == a@.take(b@.len() as int));
    r
}

/// A run of characters that are neither white space nor CJK-like.
pub open spec fn plain_run(t: Seq<char>) -> bool {
    forall|i: int| 0 <= i < t.len() ==> !is_white_space(#[trigger] t[i]) && !is_cjk_like(t[i])
}

/// The shape of a grammar token: not empty, no white space, and either a
/// single CJK-like character or a run without any.
pub open spec fn token_shaped(t: Seq<char>) -> bool {
    ||| t.len() == 1 && is_cjk_like(t[0]) && !is_white_space(t[0])
    ||| t.len() > 0 && plain_run(t)
}

/// Whether every token of `ts` has the shape of a grammar token.
pub open spec fn all_shaped(ts: Seq<Seq<char>>) -> bool {
    forall|i: int| 0 <= i < ts.len() ==> token_shaped(#[trigger] ts[i])
}

/// One step of reading grammar tokens: the state after the character `c`.
pub open spec fn grammar_step(st: (Seq<Seq<char>>, Seq<char>), c: char) -> (Seq<Seq<char>>, Seq<char>) {
    if is_white_space(c) {
        (flush(st.0, st.1), Seq::empty())
    } else if is_cjk_like(c) {
        (flush(st.0, st.1).push(seq![c]), Seq::empty())
    } else {
        (st.0, st.1.push(c))
    }
}

/// The state after reading `b` from the state `st`.
pub open spec fn scan_grammar_from(st: (Seq<Seq<char>>, Seq<char>), b: Seq<char>) -> (Seq<Seq<char>>, Seq<char>)
    decreases b.len(),
{
    if b.len() == 0 {
        st
    } else {
        grammar_step(scan_grammar_from(st, b.drop_last()), b.last())
    }
}

proof fn lemma_scan_grammar_concat(a: Seq<char>, b: Seq<char>)
    ensures
        scan_grammar(a + b) == scan_grammar_from(scan_grammar(a), b),
    decreases b.len(),
{
    if b.len() == 0 {
        assert(a + b =~= a);
    } else {
        assert((a + b).drop_last() =~= a + b.drop_last());
        assert((a + b).last() == b.last());
        lemma_scan_grammar_concat(a, b.drop_last());
    }
}

proof fn lemma_scan_plain_run(d: Seq<Seq<char>>, c: Seq<char>, t: Seq<char>)
    requires
        plain_run(t),
    ensures
        scan_grammar_from((d, c), t) == (d, c + t),
    decreases t.len(),
{
    if t.len() > 0 {
        assert(plain_run(t.drop_last()));
        lemma_scan_plain_run(d, c, t.drop_last());
        assert(!is_white_space(t[t.len() - 1]) && !is_cjk_like(t[t.len() - 1]));
        assert((c + t.drop_last()).push(t.last()) =~= c + t);
    }
}

/// Reading a token of grammar shape from a state with no token under way
/// adds that token.
proof fn lemma_scan_token(d: Seq<Seq<char>>, t: Seq<char>)
    requires
        token_shaped(t),
    ensures
        flush(scan_grammar_from((d, Seq::empty()), t).0, scan_grammar_from((d, Seq::empty()), t).1)
            == d.push(t),
{
    if t.len() == 1 && is_cjk_like(t[0]) && !is_white_space(t[0]) {
        let e = Seq::<char>::empty();
        assert(t.drop_last() =~= e);
        assert(scan_grammar_from((d, e), t.drop_last()) == (d, e));
        assert(t.last() == t[0]);
        assert(flush(d, e) == d);
        assert(scan_grammar_from((d, e), t) == (d.push(seq![t[0]]), e));
        assert(t =~= seq![t[0]]);
    } else {
        lemma_scan_plain_run(d, Seq::empty(), t);
        assert(Seq::<char>::empty() + t =~= t);
    }
}

/// The grammar tokens of tokens of grammar shape, joined by single spaces,
/// are those tokens.
proof fn lemma_grammar_of_tokens(ts: Seq<Seq<char>>)
    requires
        ts.len() > 0,
        all_shaped(ts),
    ensures
        grammar_tokens(join_with(ts, seq![' '])) == ts,
    decreases ts.len(),
{
    let empty_state = (Seq::<Seq<char>>::empty(), Seq::<char>::empty());
    assert(token_shaped(ts[ts.len() - 1]));
    if ts.len() == 1 {
        lemma_scan_grammar_concat(Seq::empty(), ts[0]);
        assert(Seq::<char>::empty() + ts[0] =~= ts[0]);
        assert(scan_grammar(Seq::<char>::empty()) == empty_state);
        lemma_scan_token(Seq::empty(), ts[0]);
        assert(Seq::<Seq<char>>::empty().push(ts[0]) =~= ts);
    } else {
        let init = ts.drop_last();
        let t = ts.last();
        assert(all_shaped(init)) by {
            assert forall|i: int| 0 <= i < init.len() implies token_shaped(#[trigger] init[i]) by {
                assert(init[i] == ts[i]);
            }
        }
        lemma_grammar_of_tokens(init);
        let head = join_with(init, seq![' ']) + seq![' '];
        lemma_scan_grammar_concat(join_with(init, seq![' ']), seq![' ']);
        let sp: Seq<char> = seq![' '];
        let st0 = scan_grammar(join_with(init, seq![' ']));
        assert(sp.drop_last() =~= Seq::<char>::empty());
        assert(scan_grammar_from(st0, sp.drop_last()) == st0);
        assert(sp.last() == ' ');
        assert(is_white_space(' '));
        assert(scan_grammar_from(st0, sp) == (flush(st0.0, st0.1), Seq::<char>::empty()));
        assert(scan_grammar(head) == (init, Seq::<char>::empty()));
        lemma_scan_grammar_concat(head, t);
        assert(join_with(ts, seq![' ']) == head + t);
        lemma_scan_token(init, t);
        assert(init.push(t) =~= ts);
    }
}

proof fn lemma_not_blank_step(s: Seq<char>)
    requires
        s.len() > 0,
    ensures
        is_blank(s) <==> is_blank(s.drop_last()) && is_white_space(s.last()),
{
    let p = s.drop_last();
    if is_blank(p) && is_white_space(s.last()) {
        assert forall|j: int| 0 <= j < s.len() implies is_white_space(#[trigger] s[j]) by {
            if j < p.len() {
                assert(s[j] == p[j]);
            }
        }
    }
    if is_blank(s) {
        assert forall|j: int| 0 <= j < p.len() implies is_white_space(#[trigger] p[j]) by {
            assert(s[j] == p[j]);
        }
        assert(is_white_space(s[s.len() - 1]));
    }
}

/// Reading grammar tokens: a token is finished or under way exactly when
/// some character was not white space, and all of them have grammar shape.
proof fn lemma_scan_grammar_shape(s: Seq<char>)
    ensures
        (scan_grammar(s).0.len() > 0 || scan_grammar(s).1.len() > 0) <==> !is_blank(s),
        all_shaped(scan_grammar(s).0),
        plain_run(scan_grammar(s).1),
    decreases s.len(),
{
    if s.len() > 0 {
        lemma_scan_grammar_shape(s.drop_last());
        lemma_not_blank_step(s);
        let prev = scan_grammar(s.drop_last());
        let c = s.last();
        let st = scan_grammar(s);
        if is_white_space(c) {
            if prev.1.len() > 0 {
                assert(token_shaped(prev.1));
            }
            assert forall|i: int| 0 <= i < st.0.len() implies token_shaped(#[trigger] st.0[i]) by {
                if i < prev.0.len() {
                    assert(st.0[i] == prev.0[i]);
                }
            }
        } else if is_cjk_like(c) {
            let f = flush(prev.0, prev.1);
            if prev.1.len() > 0 {
                assert(token_shaped(prev.1));
            }
            assert forall|i: int| 0 <= i < f.len() implies token_shaped(#[trigger] f[i]) by {
                if i < prev.0.len() {
                    assert(f[i] == prev.0[i]);
                }
            }
            assert forall|i: int| 0 <= i < st.0.len() implies token_shaped(#[trigger] st.0[i]) by {
                if i < f.len() {
                    assert(st.0[i] == f[i]);
                } else {
                    assert(st.0[i] == seq![c]);
                }
            }
        } else {
            assert forall|i: int| 0 <= i < st.1.len() implies !is_white_space(#[trigger] st.1[i]) && !is_cjk_like(st.1[i]) by {
                if i < prev.1.len() {
                    assert(st.1[i] == prev.1[i]);
                }
            }
        }
    }
}

/// The characters of `s` that are not white space, in order.
pub open spec fn non_white(s: Seq<char>) -> Seq<char>
    decreases s.len(),
{
    if s.len() == 0 {
        Seq::empty()
    } else if is_white_space(s.last()) {
        non_white(s.drop_last())
    } else {
        non_white(s.drop_last()).push(s.last())
    }
}

/// The tokens of `ts` written one after the other.
pub open spec fn concat_all(ts: Seq<Seq<char>>) -> Seq<char>
    decreases ts.len(),
{
    if ts.len() == 0 {
        Seq::empty()
    } else {
        concat_all(ts.drop_last()) + ts.last()
    }
}

proof fn lemma_non_white_concat(a: Seq<char>, b: Seq<char>)
    ensures
        non_white(a + b) == non_white(a) + non_white(b),
    decreases b.len(),
{
    if b.len() == 0 {
        assert(a + b =~= a);
        assert(non_white(a) + non_white(b) =~= non_white(a));
    } else {
        assert((a + b).drop_last() =~= a + b.drop_last());
        assert((a + b).last() == b.last());
        lemma_non_white_concat(a, b.drop_last());
        if !is_white_space(b.last()) {
            assert((non_white(a) + non_white(b.drop_last())).push(b.last()) =~= non_white(a)
                + non_white(b.drop_last()).push(b.last()));
        }
    }
}

proof fn lemma_non_white_of_plain(t: Seq<char>)
    requires
        forall|i: int| 0 <= i < t.len() ==> !is_white_space(#[trigger] t[i]),
    ensures
        non_white(t) == t,
    decreases t.len(),
{
    if t.len() > 0 {
        lemma_non_white_of_plain(t.drop_last());
        assert(!is_white_space(t[t.len() - 1]));
        assert(t.drop_last().push(t.last()) =~= t);
    }
}

proof fn lemma_scan_grammar_keeps_chars(s: Seq<char>)
    ensures
        concat_all(scan_grammar(s).0) + scan_grammar(s).1 == non_white(s),
    decreases s.len(),
{
    if s.len() > 0 {
        lemma_scan_grammar_keeps_chars(s.drop_last());
        let prev = scan_grammar(s.drop_last());
        let c = s.last();
        let e = Seq::<char>::empty();
        if is_white_space(c) {
            if prev.1.len() > 0 {
                assert(prev.0.push(prev.1).drop_last() =~= prev.0);
            }
            assert(concat_all(flush(prev.0, prev.1)) + e =~= concat_all(prev.0) + prev.1);
        } else if is_cjk_like(c) {
            let f = flush(prev.0, prev.1);
            if prev.1.len() > 0 {
                assert(prev.0.push(prev.1).drop_last() =~= prev.0);
            }
            assert(concat_all(f) =~= concat_all(prev.0) + prev.1);
            assert(f.push(seq![c]).drop_last() =~= f);
            assert(concat_all(f.push(seq![c])) + e =~= (concat_all(prev.0) + prev.1).push(c));
        } else {
            assert(concat_all(prev.0) + prev.1.push(c) =~= (concat_all(prev.0) + prev.1).push(c));
        }
    }
}

proof fn lemma_non_white_of_join(ts: Seq<Seq<char>>)
    requires
        all_shaped(ts),
    ensures
        non_white(join_with(ts, seq![' '])) == concat_all(ts),
    decreases ts.len(),
{
    if ts.len() > 0 {
        let t = ts.last();
        assert(token_shaped(ts[ts.len() - 1]));
        assert forall|i: int| 0 <= i < t.len() implies !is_white_space(#[trigger] t[i]) by {
            if !plain_run(t) {
                assert(i == 0);
            }
        }
        lemma_non_white_of_plain(t);
        if ts.len() == 1 {
            assert(ts.drop_last() =~= Seq::<Seq<char>>::empty());
            assert(concat_all(Seq::<Seq<char>>::empty()) == Seq::<char>::empty());
            assert(Seq::<char>::empty() + t =~= t);
            assert(join_with(ts, seq![' ']) == ts[0]);
            assert(ts[0] == t);
        } else {
            let init = ts.drop_last();
            assert(all_shaped(init)) by {
                assert forall|i: int| 0 <= i < init.len() implies token_shaped(#[trigger] init[i]) by {
                    assert(init[i] == ts[i]);
                }
            }
            lemma_non_white_of_join(init);
            let j = join_with(init, seq![' ']);
            lemma_non_white_concat(j + seq![' '], t);
            lemma_non_white_concat(j, seq![' ']);
            let sp: Seq<char> = seq![' '];
            assert(sp.drop_last() =~= Seq::<char>::empty());
            assert(sp.last() == ' ');
            assert(is_white_space(' '));
            assert(non_white(Seq::<char>::empty()) == Seq::<char>::empty());
            assert(non_white(sp) == Seq::<char>::empty());
            assert(non_white(j) + Seq::<char>::empty() =~= non_white(j));
            assert(join_with(ts, seq![' ']) == j + sp + t);
            assert(concat_all(ts) == concat_all(init) + t);
            assert(non_white(j + sp) == non_white(j));
            assert(non_white(join_with(ts, seq![' '])) == non_white(j) + t);
        }
    }
}

/// A default grammar is made of tokens of grammar shape (no white space in
/// them; a CJK-like character alone; any other run whole) joined by single
/// spaces; it holds the phrase's characters other than white space, in
/// order; and it is its own default grammar.
pub proof fn lemma_default_grammar_shape(s: Seq<char>)
    ensures
        default_grammar(s) matches Some(g) ==> {
            &&& g == join_with(grammar_tokens(s), seq![' '])
            &&& grammar_tokens(s).len() > 0
            &&& all_shaped(grammar_tokens(s))
            &&& non_white(g) == non_white(s)
            &&& default_grammar(g) == Some(g)
        },
{
    lemma_scan_grammar_shape(s);
    lemma_scan_grammar_keeps_chars(s);
    let st = scan_grammar(s);
    let ts = grammar_tokens(s);
    if st.1.len() > 0 {
        assert(token_shaped(st.1));
    }
    assert(all_shaped(ts)) by {
        assert forall|i: int| 0 <= i < ts.len() implies token_shaped(#[trigger] ts[i]) by {
            if i < st.0.len() {
                assert(ts[i] == st.0[i]);
            }
        }
    }
    if default_grammar(s) is Some {
        lemma_words_nonempty(s);
        let g = join_with(ts, seq![' ']);
        lemma_grammar_of_tokens(ts);
        lemma_non_white_of_join(ts);
        if st.1.len() > 0 {
            assert(st.0.push(st.1).drop_last() =~= st.0);
        } else {
            assert(concat_all(st.0) + st.1 =~= concat_all(st.0));
        }
        lemma_words_nonempty(g);
        let t = ts.last();
        assert(token_shaped(ts[ts.len() - 1]));
        assert(g.last() == t.last()) by {
            if ts.len() > 1 {
                assert(g == join_with(ts.drop_last(), seq![' ']) + seq![' '] + t);
            }
        }
        assert(!is_white_space(t[t.len() - 1]));
    }
}

/// A text has words exactly when it is not blank.
proof fn lemma_words_nonempty(s: Seq<char>)
    ensures
        words(s).len() > 0 <==> !is_blank(s),
{
    lemma_scan_words_nonempty(s);
}

proof fn lemma_scan_words_nonempty(s: Seq<char>)
    ensures
        (scan_words(s).0.len() > 0 || scan_words(s).1.len() > 0) <==> !is_blank(s),
    decreases s.len(),
{
    if s.len() > 0 {
        lemma_scan_words_nonempty(s.drop_last());
        lemma_not_blank_step(s);
    }
}

} // verus!
