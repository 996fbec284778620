//! Character-level string utilities shared by the key builders, the list
//! codec and the descriptor codec.

use vstd::prelude::*;

verus! {

/// Relies on std's `String::push`: appends one character at the end.
#[verifier::external_body]
pub fn push_char(s: &mut String, c: char)
    ensures
        final(s)@ == old(s)@.push(c),
{
    s.push(c);
}

/// The characters of `s`, as a vector.
pub fn str_to_chars(s: &str) -> (r: Vec<char>)
    ensures
        r@ == s@,
{
    let mut r: Vec<char> = Vec::new();
    for c in it: s.chars()
        invariant
            r@ == it.seq().subrange(0, it.index() as int),
            it.seq() == s@,
    {
        r.push(c);
    }
    proof {
        assert(r@ =~= s@);
    }
    r
}

/// A string holding exactly the characters of `v`.
pub fn chars_to_string(v: &Vec<char>) -> (r: String)
    ensures
        r@ == v@,
{
    let mut r = String::new();
    let mut i: usize = 0;
    while i < v.len()
        invariant
            i <= v.len(),
            r@ == v@.subrange(0, i as int),
        decreases v.len() - i,
    {
        push_char(&mut r, v[i]);
        i = i + 1;
        proof {
            assert(r@ =~= v@.subrange(0, i as int));
        }
    }
    proof {
        assert(r@ =~= v@);
    }
    r
}

/// No character of `s` is the list delimiter `';'`.
pub open spec fn semi_free(s: Seq<char>) -> bool {
    forall|i: int| 0 <= i < s.len() ==> s[i] != ';'
}

/// Index of the first `';'` in `s`, or `s.len()` if there is none.
pub open spec fn first_semi(s: Seq<char>) -> int
    decreases s.len(),
{
    if s.len() == 0 {
        0
    } else if s[0] == ';' {
        0
    } else {
        1 + first_semi(s.drop_first())
    }
}

pub proof fn lemma_first_semi(s: Seq<char>)
    ensures
        0 <= first_semi(s) <= s.len(),
        first_semi(s) < s.len() ==> s[first_semi(s)] == ';',
        forall|i: int| 0 <= i < first_semi(s) ==> s[i] != ';',
        first_semi(s) == s.len() <==> semi_free(s),
    decreases s.len(),
{
    if s.len() == 0 {
    } else if s[0] == ';' {
    } else {
        lemma_first_semi(s.drop_first());
        assert(forall|i: int| 0 <= i < first_semi(s) ==> s[i] != ';') by {
            assert(forall|i: int|
                1 <= i < first_semi(s) ==> s[i] == s.drop_first()[i - 1] && s.drop_first()[i - 1]
                    != ';');
        }
        if first_semi(s) < s.len() {
            assert(s[first_semi(s)] == s.drop_first()[first_semi(s.drop_first())]);
        }
        if semi_free(s) {
            assert(semi_free(s.drop_first()));
        }
    }
}

/// The segments of `s` between `';'` delimiters, empty segments included.
pub open spec fn split_semi(s: Seq<char>) -> Seq<Seq<char>>
    decreases s.len(),
{
    let i = first_semi(s);
    if 0 <= i && i < s.len() {
        seq![s.take(i)] + split_semi(s.skip(i + 1))
    } else {
        seq![s]
    }
}

/// `items` joined with `';'` between consecutive elements.
pub open spec fn join_semi(items: Seq<Seq<char>>) -> Seq<char>
    decreases items.len(),
{
    if items.len() == 0 {
        Seq::empty()
    } else if items.len() == 1 {
        items[0]
    } else {
        items[0] + seq![';'] + join_semi(items.drop_first())
    }
}

/// What decoding a stored list returns: the non-empty segments, in order.
pub open spec fn decode_list_spec(s: Seq<char>) -> Seq<Seq<char>> {
    split_semi(s).filter(|x: Seq<char>| x.len() > 0)
}

pub proof fn lemma_semi_free_split(s: Seq<char>)
    requires
        semi_free(s),
    ensures
        split_semi(s) == seq![s],
{
    lemma_first_semi(s);
}

pub proof fn lemma_first_semi_concat(a: Seq<char>, rest: Seq<char>)
    requires
        semi_free(a),
    ensures
        first_semi(a + seq![';'] + rest) == a.len(),
    decreases a.len(),
{
    let s = a + seq![';'] + rest;
    if a.len() == 0 {
        assert(s[0] == ';');
    } else {
        assert(s[0] == a[0]);
        assert(semi_free(a.drop_first()));
        lemma_first_semi_concat(a.drop_first(), rest);
        assert(s.drop_first() =~= a.drop_first() + seq![';'] + rest);
    }
}

pub proof fn lemma_split_prefix(a: Seq<char>, rest: Seq<char>)
    requires
        semi_free(a),
    ensures
        split_semi(a + seq![';'] + rest) == seq![a] + split_semi(rest),
{
    let s = a + seq![';'] + rest;
    lemma_first_semi_concat(a, rest);
    assert(s.take(a.len() as int) =~= a);
    assert(s.skip(a.len() as int + 1) =~= rest);
}

pub proof fn lemma_filter_singleton(x: Seq<char>)
    ensures
        x.len() > 0 ==> seq![x].filter(|t: Seq<char>| t.len() > 0) == seq![x],
        x.len() == 0 ==> seq![x].filter(|t: Seq<char>| t.len() > 0) == Seq::<Seq<char>>::empty(),
{
    reveal_with_fuel(Seq::filter, 2);
    assert(seq![x].drop_last() =~= Seq::<Seq<char>>::empty());
    if x.len() > 0 {
        assert(seq![x].filter(|t: Seq<char>| t.len() > 0) =~= seq![x]);
    }
}

/// Joining non-empty, delimiter-free items and decoding the result returns
/// exactly the original items: the stored-list format round-trips.
pub proof fn lemma_list_round_trip(items: Seq<Seq<char>>)
    requires
        forall|i: int| 0 <= i < items.len() ==> (#[trigger] items[i]).len() > 0 && semi_free(
            items[i],
        ),
    ensures
        decode_list_spec(join_semi(items)) == items,
    decreases items.len(),
{
    let p = |t: Seq<char>| t.len() > 0;
    if items.len() == 0 {
        lemma_semi_free_split(Seq::empty());
        lemma_filter_singleton(Seq::empty());
        assert(decode_list_spec(join_semi(items)) =~= items);
    } else if items.len() == 1 {
        lemma_semi_free_split(items[0]);
        lemma_filter_singleton(items[0]);
        assert(decode_list_spec(join_semi(items)) =~= items);
    } else {
        let rest = items.drop_first();
        lemma_split_prefix(items[0], join_semi(rest));
        lemma_list_round_trip(rest);
        Seq::filter_distributes_over_add(seq![items[0]], split_semi(join_semi(rest)), p);
        lemma_filter_singleton(items[0]);
        assert(decode_list_spec(join_semi(items)) =~= items);
    }
}

/// `items` joined into one string with `';'` between consecutive elements.
pub fn encode_list(items: &Vec<String>) -> (r: String)
    ensures
        r@ == join_semi(items.deep_view()),
{
    let mut r = String::new();
    let mut i: usize = 0;
    while i < items.len()
        invariant
            i <= items.len(),
            r@ == join_semi(items.deep_view().take(i as int)),
        decreases items.len() - i,
    {
        if i > 0 {
            push_char(&mut r, ';');
        }
        let s: &String = &items[i];
        r.append(s.as_str());
        i = i + 1;
        proof {
            lemma_join_push(items.deep_view().take(i - 1), items.deep_view()[i - 1]);
            assert(items.deep_view().take(i as int) =~= items.deep_view().take(i - 1).push(
                items.deep_view()[i - 1],
            ));
        }
    }
    proof {
        assert(items.deep_view().take(items.len() as int) =~= items.deep_view());
    }
    r
}

pub proof fn lemma_join_push(items: Seq<Seq<char>>, x: Seq<char>)
    ensures
        items.len() == 0 ==> join_semi(items.push(x)) == x,
        items.len() > 0 ==> join_semi(items.push(x)) == join_semi(items) + seq![';'] + x,
    decreases items.len(),
{
    if items.len() == 0 {
        assert(items.push(x)[0] == x);
    } else if items.len() == 1 {
        assert(items.push(x).drop_first() =~= seq![x]);
        assert(items.push(x)[0] == items[0]);
        assert(join_semi(seq![x]) == x);
        assert(join_semi(items.push(x)) == items[0] + seq![';'] + x);
    } else {
        lemma_join_push(items.drop_first(), x);
        assert(items.push(x).drop_first() =~= items.drop_first().push(x));
        assert(join_semi(items.push(x)) =~= join_semi(items) + seq![';'] + x);
    }
}

/// The non-empty `';'`-separated segments of `s`, in order.
pub fn decode_list(s: &str) -> (r: Vec<String>)
    ensures
        r.deep_view() == decode_list_spec(s@),
{
    let cs = str_to_chars(s);
    let mut r: Vec<String> = Vec::new();
    let mut seg: Vec<char> = Vec::new();
    let ghost mut done: Seq<Seq<char>> = Seq::empty();
    let mut i: usize = 0;
    proof {
        assert(seg@ + cs@.skip(0) =~= cs@);
        assert(done + split_semi(cs@) =~= split_semi(cs@));
        assert(r.deep_view() =~= done.filter(|x: Seq<char>| x.len() > 0));
    }
    while i < cs.len()
        invariant
            i <= cs.len(),
            cs@ == s@,
            semi_free(seg@),
            split_semi(cs@) == done + split_semi(seg@ + cs@.skip(i as int)),
            r.deep_view() == done.filter(|x: Seq<char>| x.len() > 0),
        decreases cs.len() - i,
    {
        let ghost rest = cs@.skip(i as int);
        let ghost old_seg = seg@;
        let ghost old_r = r.deep_view();
        let c = cs[i];
        if c == ';' {
            proof {
                assert(old_seg + rest =~= old_seg + seq![';'] + cs@.skip(i + 1));
                lemma_split_prefix(old_seg, cs@.skip(i + 1));
                Seq::filter_distributes_over_add(done, seq![old_seg], |x: Seq<char>| x.len() > 0);
                lemma_filter_singleton(old_seg);
            }
            if seg.len() > 0 {
                let piece = chars_to_string(&seg);
                r.push(piece);
                proof {
                    assert(r.deep_view() =~= old_r.push(old_seg));
                }
            }
            seg = Vec::new();
            proof {
                done = done + seq![old_seg];
                assert(seg@ + cs@.skip(i + 1) =~= cs@.skip(i + 1));
            }
        } else {
            seg.push(c);
            proof {
                assert(seg@ + cs@.skip(i + 1) =~= old_seg + rest);
            }
        }
        i = i + 1;
    }
    proof {
        assert(seg@ + cs@.skip(i as int) =~= seg@);
        lemma_semi_free_split(seg@);
        Seq::filter_distributes_over_add(done, seq![seg@], |x: Seq<char>| x.len() > 0);
        lemma_filter_singleton(seg@);
    }
    let ghost old_r = r.deep_view();
    let ghost last_seg = seg@;
    if seg.len() > 0 {
        let piece = chars_to_string(&seg);
        r.push(piece);
        proof {
            assert(r.deep_view() =~= old_r.push(last_seg));
        }
    }
    r
}

/// The decimal digit character with value `n` < 10.
pub open spec fn digit_char(n: nat) -> char {
    if n == 0 {
        '0'
    } else if n == 1 {
        '1'
    } else if n == 2 {
        '2'
    } else if n == 3 {
        '3'
    } else if n == 4 {
        '4'
    } else if n == 5 {
        '5'
    } else if n == 6 {
        '6'
    } else if n == 7 {
        '7'
    } else if n == 8 {
        '8'
    } else {
        '9'
    }
}

/// The value of a decimal digit character, or 10 if `c` is no digit.
pub open spec fn digit_val(c: char) -> nat {
    if c == '0' {
        0
    } else if c == '1' {
        1
    } else if c == '2' {
        2
    } else if c == '3' {
        3
    } else if c == '4' {
        4
    } else if c == '5' {
        5
    } else if c == '6' {
        6
    } else if c == '7' {
        7
    } else if c == '8' {
        8
    } else if c == '9' {
        9
    } else {
        10
    }
}

pub open spec fn is_dec_digit(c: char) -> bool {
    digit_val(c) < 10
}

/// The decimal numeral of `n`, most significant digit first, no leading
/// zeros (the numeral of zero is "0").
pub open spec fn dec_str(n: nat) -> Seq<char>
    decreases n,
{
    if n < 10 {
        seq![digit_char(n)]
    } else {
        dec_str(n / 10).push(digit_char(n % 10))
    }
}

/// The decimal digit character with value `n`.
pub fn digit_to_char(n: u64) -> (c: char)
    requires
        n < 10,
    ensures
        c == digit_char(n as nat),
{
    match n {
        0 => '0',
        1 => '1',
        2 => '2',
        3 => '3',
        4 => '4',
        5 => '5',
        6 => '6',
        7 => '7',
        8 => '8',
        _ => '9',
    }
}

pub proof fn lemma_map_push<A, B>(s: Seq<A>, f: spec_fn(A) -> B, x: A)
    ensures
        s.push(x).map_values(f) == s.map_values(f).push(f(x)),
{
    assert(s.push(x).map_values(f) =~= s.map_values(f).push(f(x)));
}

pub proof fn lemma_reverse_push<A>(s: Seq<A>, x: A)
    ensures
        s.push(x).reverse() == seq![x] + s.reverse(),
{
    assert(s.push(x).reverse() =~= seq![x] + s.reverse());
}

/// The decimal numeral of `n`.
pub fn u64_to_string(n: u64) -> (r: String)
    ensures
        r@ == dec_str(n as nat),
{
    let mut rev: Vec<char> = Vec::new();
    let mut cur: u64 = n;
    proof {
        assert(rev@.reverse() =~= Seq::<char>::empty());
        assert(dec_str(n as nat) =~= dec_str(n as nat) + rev@.reverse());
    }
    while cur >= 10
        invariant
            dec_str(n as nat) == dec_str(cur as nat) + rev@.reverse(),
        decreases cur,
    {
        let ghost prev = rev@;
        let d = cur % 10;
        rev.push(digit_to_char(d));
        proof {
            lemma_reverse_push(prev, digit_char(d as nat));
            assert(dec_str(cur as nat) == dec_str((cur / 10) as nat).push(
                digit_char((cur % 10) as nat),
            ));
            assert(dec_str((cur / 10) as nat).push(digit_char((cur % 10) as nat)) + prev.reverse()
                =~= dec_str((cur / 10) as nat) + (seq![digit_char(d as nat)] + prev.reverse()));
        }
        cur = cur / 10;
    }
    let ghost prev = rev@;
    rev.push(digit_to_char(cur));
    proof {
        lemma_reverse_push(prev, digit_char(cur as nat));
        assert(dec_str(cur as nat) == seq![digit_char(cur as nat)]);
        assert(dec_str(cur as nat) + prev.reverse() =~= seq![digit_char(cur as nat)]
            + prev.reverse());
        assert(dec_str(n as nat) =~= rev@.reverse());
    }
    let mut out = String::new();
    let mut i: usize = rev.len();
    while i > 0
        invariant
            i <= rev@.len(),
            out@.len() == rev@.len() - i,
            forall|k: int| 0 <= k < out@.len() ==> out@[k] == rev@[rev@.len() - 1 - k],
        decreases i,
    {
        i = i - 1;
        push_char(&mut out, rev[i]);
    }
    proof {
        assert(out@ =~= rev@.reverse());
    }
    out
}

} // verus!
