use vstd::prelude::*;

verus! {

/// Whether `c` is white space in the Unicode sense (the `White_Space` property).
pub open spec fn is_space(c: char) -> bool {
    let u = c as u32;
    ||| 0x9 <= u <= 0xd
    ||| u == 0x20
    ||| u == 0x85
    ||| u == 0xa0
    ||| u == 0x1680
    ||| 0x2000 <= u <= 0x200a
    ||| u == 0x2028
    ||| u == 0x2029
    ||| u == 0x202f
    ||| u == 0x205f
    ||| u == 0x3000
}

/// Whether `c` is a parenthesis.
pub open spec fn is_paren(c: char) -> bool {
    c == '(' || c == ')'
}

/// The word `cur` as a token, if it is not empty.
pub open spec fn flush(cur: Seq<char>) -> Seq<Seq<char>> {
    if cur.len() > 0 {
        seq![cur]
    } else {
        Seq::empty()
    }
}

/// The tokens of `s` from index `i` on, where `cur` is the word read just before `i`: each
/// parenthesis is a token of its own, white space separates tokens, and every other character
/// joins the word it stands in.
pub open spec fn lex_from(s: Seq<char>, i: int, cur: Seq<char>) -> Seq<Seq<char>>
    decreases s.len() - i,
{
    if i < 0 || i >= s.len() {
        flush(cur)
    } else if is_space(s[i]) {
        flush(cur) + lex_from(s, i + 1, Seq::empty())
    } else if is_paren(s[i]) {
        flush(cur) + seq![seq![s[i]]] + lex_from(s, i + 1, Seq::empty())
    } else {
        lex_from(s, i + 1, cur.push(s[i]))
    }
}

/// The tokens of `s`.
pub open spec fn lex(s: Seq<char>) -> Seq<Seq<char>> {
    lex_from(s, 0, Seq::empty())
}

/// `s` with a space put before and after each parenthesis.
pub open spec fn pad_parens(s: Seq<char>) -> Seq<char>
    decreases s.len(),
{
    if s.len() == 0 {
        Seq::empty()
    } else {
        (if is_paren(s[0]) {
            seq![' ', s[0], ' ']
        } else {
            seq![s[0]]
        }) + pad_parens(s.drop_first())
    }
}

/// The words of `t` separated by runs of white space, where `cur` is the word read just before
/// `t`; no word is empty.
pub open spec fn split_words(t: Seq<char>, cur: Seq<char>) -> Seq<Seq<char>>
    decreases t.len(),
{
    if t.len() == 0 {
        flush(cur)
    } else if is_space(t[0]) {
        flush(cur) + split_words(t.drop_first(), Seq::empty())
    } else {
        split_words(t.drop_first(), cur.push(t[0]))
    }
}

/// The tokens of `s` are what splitting `s` on white space gives once each parenthesis has a
/// space put before and after it.
pub proof fn lemma_lex_pads_and_splits(s: Seq<char>)
    ensures
        lex(s) == split_words(pad_parens(s), Seq::empty()),
{
    lemma_lex_from_pads_and_splits(s, 0, Seq::empty());
    assert(s.skip(0) =~= s);
}

/// The tokens of `s` from index `i` on, after the word `cur`, are the words of the padded rest.
proof fn lemma_lex_from_pads_and_splits(s: Seq<char>, i: int, cur: Seq<char>)
    requires
        0 <= i <= s.len(),
    ensures
        lex_from(s, i, cur) == split_words(pad_parens(s.skip(i)), cur),
    decreases s.len() - i,
{
    if i == s.len() {
        assert(s.skip(i) =~= Seq::<char>::empty());
    } else {
        let c = s[i];
        let rest = pad_parens(s.skip(i + 1));
        assert(s.skip(i).drop_first() =~= s.skip(i + 1));
        if is_space(c) {
            lemma_lex_from_pads_and_splits(s, i + 1, Seq::empty());
            assert((seq![c] + rest).drop_first() =~= rest);
        } else if is_paren(c) {
            lemma_lex_from_pads_and_splits(s, i + 1, Seq::empty());
            let t = seq![' ', c, ' '] + rest;
            assert(t.drop_first() =~= seq![c, ' '] + rest);
            assert((seq![c, ' '] + rest).drop_first() =~= seq![' '] + rest);
            assert((seq![' '] + rest).drop_first() =~= rest);
            assert(Seq::<char>::empty().push(c) =~= seq![c]);
            assert(is_space(' ') && !is_space(c));
            let tail = split_words(rest, Seq::empty());
            assert(split_words(seq![' '] + rest, seq![c]) == seq![seq![c]] + tail);
            assert(split_words(seq![c, ' '] + rest, Seq::empty()) == seq![seq![c]] + tail);
            assert(split_words(t, cur) == flush(cur) + (seq![seq![c]] + tail));
            assert(flush(cur) + (seq![seq![c]] + tail) =~= flush(cur) + seq![seq![c]] + tail);
        } else {
            lemma_lex_from_pads_and_splits(s, i + 1, cur.push(c));
            assert((seq![c] + rest).drop_first() =~= rest);
        }
    }
}

/// The characters of each string of `v`, in order.
pub open spec fn texts(v: Seq<String>) -> Seq<Seq<char>> {
    Seq::new(v.len(), |i: int| v[i]@)
}

/// Whether `c` is white space.
pub fn space(c: char) -> (r: bool)
    ensures
        r == is_space(c),
{
    let u = c as u32;
    (0x9 <= u && u <= 0xd) || u == 0x20 || u == 0x85 || u == 0xa0 || u == 0x1680 || (0x2000 <= u
        && u <= 0x200a) || u == 0x2028 || u == 0x2029 || u == 0x202f || u == 0x205f || u == 0x3000
}

/// Splits `program` into tokens: each `(` and `)` stands alone, and white space separates the
/// rest.
pub fn tokenize(program: &str) -> (r: Vec<String>)
    ensures
        texts(r@) == lex(program@),
{
    let ghost s = program@;
    let n = program.unicode_len();
    let mut out: Vec<String> = Vec::new();
    let mut start: usize = 0;
    let mut i: usize = 0;
    assert(texts(out@) =~= Seq::<Seq<char>>::empty());
    assert(s.subrange(0, 0) =~= Seq::<char>::empty());
    assert(lex(s) =~= texts(out@) + lex_from(s, 0, s.subrange(0, 0)));
    while i < n
        invariant
            n == s.len(),
            s == program@,
            start <= i <= n,
            lex(s) == texts(out@) + lex_from(s, i as int, s.subrange(start as int, i as int)),
        decreases n - i,
    {
        let c = program.get_char(i);
        let ghost before = out@;
        let ghost cur = s.subrange(start as int, i as int);
        let ghost rest = lex_from(s, i + 1, Seq::empty());
        if space(c) || c == '(' || c == ')' {
            if start < i {
                out.push(program.substring_char(start, i).to_string());
            }
            assert(texts(out@) =~= texts(before) + flush(cur));
            let ghost middle = out@;
            if c == '(' || c == ')' {
                out.push(program.substring_char(i, i + 1).to_string());
                assert(s.subrange(i as int, i + 1) =~= seq![c]);
                assert(texts(out@) =~= texts(middle) + seq![seq![c]]);
                assert(texts(before) + (flush(cur) + seq![seq![c]] + rest) =~= texts(out@) + rest);
            } else {
                assert(texts(before) + (flush(cur) + rest) =~= texts(out@) + rest);
            }
            start = i + 1;
            assert(s.subrange(start as int, i + 1) =~= Seq::<char>::empty());
        } else {
            assert(s.subrange(start as int, i as int).push(c) =~= s.subrange(start as int, i + 1));
        }
        i += 1;
    }
    if start < i {
        out.push(program.substring_char(start, i).to_string());
    }
    out
}

} // verus!
