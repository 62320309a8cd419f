use vstd::prelude::*;
use vstd::std_specs::iter::IteratorSpec;

verus! {

broadcast use vstd::string::group_string_axioms, vstd::string::next_postcondition;

/// The first position at or after `i` that holds a space, or `s.len()` when there is none.
pub open spec fn space_from(s: Seq<char>, i: int) -> int
    decreases s.len() - i,
{
    if i >= s.len() {
        s.len() as int
    } else if s[i] == ' ' {
        i
    } else {
        space_from(s, i + 1)
    }
}

/// Position `k` starts the closing sequence of a quoted field: a quote followed by a space.
pub open spec fn is_close(s: Seq<char>, k: int) -> bool {
    0 <= k && k + 1 < s.len() && s[k] == '"' && s[k + 1] == ' '
}

/// The first position at or after `i` that starts a closing quote-space pair, or `s.len()`.
pub open spec fn close_from(s: Seq<char>, i: int) -> int
    decreases s.len() - i,
{
    if i + 1 >= s.len() {
        s.len() as int
    } else if is_close(s, i) {
        i
    } else {
        close_from(s, i + 1)
    }
}

/// The field that starts at position `p`: its first position, the position past its last
/// character, and the position after its terminator. `None` when no terminator follows.
pub open spec fn token_at(s: Seq<char>, p: int) -> Option<(int, int, int)> {
    if 0 <= p < s.len() && s[p] == '"' {
        let k = close_from(s, p + 1);
        if k < s.len() {
            Some((p + 1, k, k + 2))
        } else {
            None
        }
    } else {
        let k = space_from(s, p);
        if k < s.len() {
            Some((p, k, k + 1))
        } else {
            None
        }
    }
}

/// Every field of `s` from position `p` on, in order.
pub open spec fn tokens_from(s: Seq<char>, p: int) -> Seq<Seq<char>>
    decreases s.len() - p,
    via tokens_from_decreases
{
    if p < 0 {
        Seq::empty()
    } else {
        match token_at(s, p) {
            Some((a, b, n)) => seq![s.subrange(a, b)] + tokens_from(s, n),
            None => Seq::empty(),
        }
    }
}

/// The fields of a whole line, in order.
pub open spec fn tokens_of(s: Seq<char>) -> Seq<Seq<char>> {
    tokens_from(s, 0)
}

/// The first space from `i` on lies at or after `i`, within the sequence.
proof fn lemma_space_from_bounds(s: Seq<char>, i: int)
    requires
        0 <= i,
    ensures
        i <= space_from(s, i) <= s.len() || (i > s.len() && space_from(s, i) == s.len()),
        space_from(s, i) < s.len() ==> s[space_from(s, i)] == ' ',
    decreases s.len() - i,
{
    if i < s.len() && s[i] != ' ' {
        lemma_space_from_bounds(s, i + 1);
    }
}

/// The first closing pair from `i` on lies at or after `i`, within the sequence.
proof fn lemma_close_from_bounds(s: Seq<char>, i: int)
    requires
        0 <= i,
    ensures
        i <= close_from(s, i) <= s.len() || (i > s.len() && close_from(s, i) == s.len()),
        close_from(s, i) < s.len() ==> is_close(s, close_from(s, i)),
    decreases s.len() - i,
{
    if i + 1 < s.len() && !is_close(s, i) {
        lemma_close_from_bounds(s, i + 1);
    }
}

/// A field, when one starts at `p`, lies within `s` and ends past `p`.
proof fn lemma_token_at_bounds(s: Seq<char>, p: int)
    requires
        0 <= p,
    ensures
        token_at(s, p) matches Some((a, b, n)) ==> p <= a <= b && b < n <= s.len() && p < n,
{
    lemma_space_from_bounds(s, p);
    lemma_close_from_bounds(s, p + 1);
}

#[via_fn]
proof fn tokens_from_decreases(s: Seq<char>, p: int) {
    if p >= 0 {
        lemma_token_at_bounds(s, p);
    }
}

/// The characters of `line`, in order.
fn chars_of(line: &str) -> (r: Vec<char>)
    ensures
        r@ == line@,
{
    let mut out: Vec<char> = Vec::new();
    let mut it = line.chars();
    loop
        invariant
            out@.len() <= line@.len(),
            out@ == line@.subrange(0, out@.len() as int),
            it.remaining() == line@.subrange(out@.len() as int, line@.len() as int),
        ensures
            out@.len() == line@.len(),
        decreases line@.len() - out@.len(),
    {
        match it.next() {
            Some(c) => {
                out.push(c);
            },
            None => {
                break;
            },
        }
    }
    assert(out@ =~= line@);
    out
}

/// Finds the field that starts at position `p` of `chars`: a quoted field runs to the next
/// quote-space pair, any other to the next space. Gives the field's bounds and the position
/// after its terminator, or `None` when no terminator follows.
pub fn match_columnar_value(chars: &Vec<char>, p: usize) -> (r: Option<(usize, usize, usize)>)
    requires
        p <= chars@.len(),
    ensures
        token_at(chars@, p as int) == match r {
            Some((a, b, n)) => Some((a as int, b as int, n as int)),
            None => None::<(int, int, int)>,
        },
{
    let len = chars.len();
    if p < len && chars[p] == '"' {
        let mut k: usize = p + 1;
        while len - k >= 2
            invariant
                p + 1 <= k <= len,
                len == chars@.len(),
                chars@[p as int] == '"',
                close_from(chars@, (p + 1) as int) == close_from(chars@, k as int),
            decreases len - k,
        {
            if chars[k] == '"' && chars[k + 1] == ' ' {
                assert(close_from(chars@, k as int) == k);
                return Some((p + 1, k, k + 2));
            }
            k = k + 1;
        }
        None
    } else {
        let mut k: usize = p;
        while k < len
            invariant
                p <= k <= len,
                len == chars@.len(),
                !(p < len && chars@[p as int] == '"'),
                space_from(chars@, p as int) == space_from(chars@, k as int),
            decreases len - k,
        {
            if chars[k] == ' ' {
                assert(space_from(chars@, k as int) == k);
                return Some((p, k, k + 1));
            }
            k = k + 1;
        }
        None
    }
}

/// The views of a sequence of strings.
pub open spec fn views(v: Seq<String>) -> Seq<Seq<char>> {
    v.map_values(|t: String| t@)
}

/// The first `max` fields of `s`, or all of them when there are fewer.
pub open spec fn first_tokens(s: Seq<char>, max: int) -> Seq<Seq<char>> {
    if tokens_of(s).len() <= max {
        tokens_of(s)
    } else {
        tokens_of(s).take(max)
    }
}

/// Splits `line` into its fields, keeping at most `max` of them. The flag tells whether
/// further fields were dropped.
pub fn tokenize(line: &str, max: usize) -> (r: (Vec<String>, bool))
    ensures
        views(r.0@) == first_tokens(line@, max as int),
        r.1 == (tokens_of(line@).len() > max),
{
    let chars = chars_of(line);
    let ghost s = chars@;
    let mut out: Vec<String> = Vec::new();
    let mut pos: usize = 0;
    let mut overflow = false;
    loop
        invariant_except_break
            !overflow,
        invariant
            s == chars@,
            s == line@,
            pos <= s.len(),
            out@.len() <= max,
            tokens_of(s) == views(out@) + tokens_from(s, pos as int),
        ensures
            overflow ==> out@.len() == max && token_at(s, pos as int) is Some,
            !overflow ==> token_at(s, pos as int) is None,
        decreases s.len() - pos,
    {
        let m = match_columnar_value(&chars, pos);
        proof {
            lemma_token_at_bounds(s, pos as int);
        }
        match m {
            Some((a, b, n)) => {
                if out.len() == max {
                    overflow = true;
                    break;
                }
                let tok = line.substring_char(a, b).to_owned();
                let ghost before = views(out@);
                out.push(tok);
                proof {
                    assert(views(out@) =~= before.push(s.subrange(a as int, b as int)));
                    assert(tokens_from(s, pos as int) == seq![s.subrange(a as int, b as int)]
                        + tokens_from(s, n as int));
                    assert(tokens_of(s) =~= views(out@) + tokens_from(s, n as int));
                }
                pos = n;
            },
            None => {
                break;
            },
        }
    }
    proof {
        assert(tokens_of(s) == views(out@) + tokens_from(s, pos as int));
        if overflow {
            assert(tokens_of(s).take(max as int) =~= views(out@));
        } else {
            assert(tokens_from(s, pos as int) =~= Seq::<Seq<char>>::empty());
            assert(tokens_of(s) =~= views(out@));
        }
    }
    (out, overflow)
}

/// A field as it stands in a line: wrapped in quotes, or bare.
pub open spec fn encode_field(f: Seq<char>, quoted: bool) -> Seq<char> {
    if quoted {
        seq!['"'] + f + seq!['"']
    } else {
        f
    }
}

/// A field can be written in a line and read back: a quoted field holds no quote followed
/// by a space; a bare field holds no space and does not start with a quote.
pub open spec fn field_fits(f: Seq<char>, quoted: bool) -> bool {
    if quoted {
        forall|k: int| 0 <= k < f.len() - 1 ==> !(#[trigger] f[k] == '"' && f[k + 1] == ' ')
    } else {
        (forall|k: int| 0 <= k < f.len() ==> #[trigger] f[k] != ' ') && !(f.len() > 0 && f[0]
            == '"')
    }
}

/// A line made of the fields `fs`, each written as `qs` says and followed by a space.
pub open spec fn join_fields(fs: Seq<Seq<char>>, qs: Seq<bool>) -> Seq<char>
    decreases fs.len(),
{
    if fs.len() == 0 {
        Seq::empty()
    } else {
        (encode_field(fs[0], qs[0]) + seq![' ']) + join_fields(fs.drop_first(), qs.drop_first())
    }
}

proof fn lemma_space_shift(a: Seq<char>, b: Seq<char>, i: int)
    requires
        0 <= i,
    ensures
        space_from(a + b, a.len() + i) == a.len() + space_from(b, i),
    decreases b.len() - i,
{
    if i < b.len() {
        assert((a + b)[a.len() + i] == b[i]);
        if b[i] != ' ' {
            lemma_space_shift(a, b, i + 1);
        }
    }
}

proof fn lemma_close_shift(a: Seq<char>, b: Seq<char>, i: int)
    requires
        0 <= i,
    ensures
        close_from(a + b, a.len() + i) == a.len() + close_from(b, i),
    decreases b.len() - i,
{
    if i + 1 < b.len() {
        assert((a + b)[a.len() + i] == b[i]);
        assert((a + b)[a.len() + i + 1] == b[i + 1]);
        if !is_close(b, i) {
            lemma_close_shift(a, b, i + 1);
        }
    }
}

/// Reading fields from the end of a prefix on is reading the rest alone.
proof fn lemma_tokens_shift(a: Seq<char>, b: Seq<char>, p: int)
    requires
        0 <= p,
    ensures
        tokens_from(a + b, a.len() + p) == tokens_from(b, p),
    decreases b.len() - p,
{
    let s = a + b;
    lemma_space_shift(a, b, p);
    lemma_close_shift(a, b, p + 1);
    lemma_token_at_bounds(b, p);
    if 0 <= p < b.len() {
        assert(s[a.len() + p] == b[p]);
    }
    match token_at(b, p) {
        Some((x, y, n)) => {
            assert(token_at(s, a.len() + p) == Some((a.len() + x, a.len() + y, a.len() + n)));
            assert(s.subrange(a.len() + x, a.len() + y) =~= b.subrange(x, y));
            lemma_tokens_shift(a, b, n);
        },
        None => {},
    }
}

proof fn lemma_space_first(s: Seq<char>, i: int, k: int)
    requires
        0 <= i <= k < s.len(),
        s[k] == ' ',
        forall|j: int| i <= j < k ==> s[j] != ' ',
    ensures
        space_from(s, i) == k,
    decreases k - i,
{
    if i < k {
        lemma_space_first(s, i + 1, k);
    }
}

proof fn lemma_close_first(s: Seq<char>, i: int, k: int)
    requires
        0 <= i <= k,
        is_close(s, k),
        forall|j: int| i <= j < k ==> !is_close(s, j),
    ensures
        close_from(s, i) == k,
    decreases k - i,
{
    if i < k {
        lemma_close_first(s, i + 1, k);
    }
}

/// A line that starts with a field that fits gives that field first, and goes on right
/// after its terminator.
proof fn lemma_first_field(f: Seq<char>, q: bool, rest: Seq<char>)
    requires
        field_fits(f, q),
    ensures
        ({
            let s = (encode_field(f, q) + seq![' ']) + rest;
            token_at(s, 0) matches Some((a, b, n)) && s.subrange(a, b) == f && n
                == encode_field(f, q).len() + 1
        }),
{
    let s = (encode_field(f, q) + seq![' ']) + rest;
    if q {
        let k = (f.len() + 1) as int;
        assert(s[0] == '"');
        assert(s[k] == '"' && s[k + 1] == ' ');
        assert forall|j: int| 1 <= j < k implies !is_close(s, j) by {
            assert(s[j] == f[j - 1]);
            if j < k - 1 {
                assert(s[j + 1] == f[j]);
            } else {
                assert(s[j + 1] == '"');
            }
        }
        lemma_close_first(s, 1, k);
        assert(s.subrange(1, k) =~= f);
    } else {
        let k = f.len() as int;
        assert(s[k] == ' ');
        assert forall|j: int| 0 <= j < k implies s[j] != ' ' by {
            assert(s[j] == f[j]);
        }
        lemma_space_first(s, 0, k);
        assert(s.subrange(0, k) =~= f);
    }
}

/// Fields that fit, written into a line each with its terminator, are read back one for
/// one, in order.
pub proof fn lemma_join_round_trip(fs: Seq<Seq<char>>, qs: Seq<bool>)
    requires
        fs.len() == qs.len(),
        forall|i: int| 0 <= i < fs.len() ==> field_fits(#[trigger] fs[i], qs[i]),
    ensures
        tokens_of(join_fields(fs, qs)) == fs,
    decreases fs.len(),
{
    let s = join_fields(fs, qs);
    if fs.len() == 0 {
        assert(space_from(s, 0) == 0);
        assert(fs =~= Seq::<Seq<char>>::empty());
    } else {
        let prefix = encode_field(fs[0], qs[0]) + seq![' '];
        let rest = join_fields(fs.drop_first(), qs.drop_first());
        assert(field_fits(fs[0], qs[0]));
        assert forall|i: int| 0 <= i < fs.drop_first().len() implies field_fits(
            #[trigger] fs.drop_first()[i],
            qs.drop_first()[i],
        ) by {
            assert(field_fits(fs[i + 1], qs[i + 1]));
        }
        lemma_join_round_trip(fs.drop_first(), qs.drop_first());
        lemma_first_field(fs[0], qs[0], rest);
        lemma_tokens_shift(prefix, rest, 0);
        assert(tokens_from(s, 0) == seq![fs[0]] + tokens_from(s, prefix.len() as int));
        assert(tokens_of(s) =~= fs);
    }
}

/// A quoted value that holds no quote followed by a space, spaces inside included, reads
/// back as one field equal to the value without its quotes.
pub proof fn lemma_quoted_field(f: Seq<char>)
    requires
        field_fits(f, true),
    ensures
        tokens_of(encode_field(f, true) + seq![' ']) == seq![f],
{
    let fs = seq![f];
    let qs = seq![true];
    assert(fs.drop_first() =~= Seq::<Seq<char>>::empty());
    assert(join_fields(fs.drop_first(), qs.drop_first()) =~= Seq::<char>::empty());
    assert(join_fields(fs, qs) =~= encode_field(f, true) + seq![' ']);
    lemma_join_round_trip(fs, qs);
}

} // verus!
