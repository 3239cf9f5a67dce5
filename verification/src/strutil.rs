use vstd::prelude::*;

verus! {

/// Relies on std's String::push: it appends the given character to the string.
#[verifier::external_body]
pub fn push_char(s: &mut String, c: char)
    ensures
        final(s)@ == old(s)@.push(c),
{
    s.push(c);
}

/// A run of `n` spaces.
pub open spec fn spaces_seq(n: nat) -> Seq<char> {
    Seq::new(n, |i: int| ' ')
}

pub fn spaces(n: usize) -> (r: String)
    ensures
        r@ == spaces_seq(n as nat),
{
    let mut r = String::new();
    let mut i: usize = 0;
    while i < n
        invariant
            i <= n,
            r@ == spaces_seq(i as nat),
        decreases n - i,
    {
        push_char(&mut r, ' ');
        assert(r@ =~= spaces_seq((i + 1) as nat));
        i = i + 1;
    }
    r
}

/// `s` padded on the left with spaces up to `width`; unchanged if already that wide.
pub open spec fn pad_left_seq(s: Seq<char>, width: nat) -> Seq<char> {
    if s.len() < width {
        spaces_seq((width - s.len()) as nat) + s
    } else {
        s
    }
}

/// `s` padded on the right with spaces up to `width`; unchanged if already that wide.
pub open spec fn pad_right_seq(s: Seq<char>, width: nat) -> Seq<char> {
    if s.len() < width {
        s + spaces_seq((width - s.len()) as nat)
    } else {
        s
    }
}

pub fn pad_left(s: &str, width: usize) -> (r: String)
    ensures
        r@ == pad_left_seq(s@, width as nat),
{
    let len = s.unicode_len();
    if len < width {
        let mut r = spaces(width - len);
        r.append(s);
        r
    } else {
        s.to_owned()
    }
}

pub fn pad_right(s: &str, width: usize) -> (r: String)
    ensures
        r@ == pad_right_seq(s@, width as nat),
{
    let len = s.unicode_len();
    let mut r = s.to_owned();
    if len < width {
        let pad = spaces(width - len);
        r.append(pad.as_str());
    }
    r
}

/// The elements of `parts` joined with `sep` between each pair.
pub open spec fn join_seq(parts: Seq<Seq<char>>, sep: Seq<char>) -> Seq<char>
    decreases parts.len(),
{
    if parts.len() == 0 {
        Seq::empty()
    } else if parts.len() == 1 {
        parts[0]
    } else {
        parts[0] + sep + join_seq(parts.drop_first(), sep)
    }
}

pub fn join_with(parts: &Vec<String>, sep: &str) -> (r: String)
    ensures
        r@ == join_seq(parts.deep_view(), sep@),
{
    let ghost pv = parts.deep_view();
    let mut r = String::new();
    let mut i: usize = 0;
    while i < parts.len()
        invariant
            i <= parts.len(),
            pv == parts.deep_view(),
            pv.len() == parts.len(),
            forall|j: int| 0 <= j < pv.len() ==> pv[j] == parts@[j]@,
            i == 0 ==> r@ == Seq::<char>::empty(),
            0 < i < pv.len() ==> r@ == join_seq(pv.take(i as int), sep@) + sep@,
            0 < i == pv.len() ==> r@ == join_seq(pv.take(i as int), sep@),
        decreases parts.len() - i,
    {
        r.append(parts[i].as_str());
        i = i + 1;
        if i < parts.len() {
            r.append(sep);
        }
        proof {
            lemma_join_take(pv, sep@, i as int);
        }
    }
    proof {
        if pv.len() > 0 {
            assert(pv.take(pv.len() as int) =~= pv);
        }
    }
    r
}

/// Joining a one-longer prefix appends the separator (when more follows) and the element.
proof fn lemma_join_take(parts: Seq<Seq<char>>, sep: Seq<char>, i: int)
    requires
        0 < i <= parts.len(),
    ensures
        i < parts.len() ==> join_seq(parts.take(i), sep) + sep == (if i == 1 {
            parts[0] + sep
        } else {
            join_seq(parts.take(i - 1), sep) + sep + parts[i - 1] + sep
        }),
        i == parts.len() ==> join_seq(parts.take(i), sep) == (if i == 1 {
            parts[0]
        } else {
            join_seq(parts.take(i - 1), sep) + sep + parts[i - 1]
        }),
    decreases i,
{
    if i == 1 {
        assert(parts.take(1) =~= seq![parts[0]]);
        if i < parts.len() {
        }
    } else {
        lemma_join_take_step(parts.take(i), sep);
        assert(parts.take(i).take(i - 1) =~= parts.take(i - 1));
    }
}

/// Unrolling `join_seq` from the back of a sequence of at least two parts.
proof fn lemma_join_take_step(parts: Seq<Seq<char>>, sep: Seq<char>)
    requires
        parts.len() >= 2,
    ensures
        join_seq(parts, sep) == join_seq(parts.take(parts.len() - 1), sep) + sep + parts[parts.len()
            - 1],
    decreases parts.len(),
{
    if parts.len() == 2 {
        reveal_with_fuel(join_seq, 3);
        assert(parts.drop_first() =~= seq![parts[1]]);
        assert(parts.take(1) =~= seq![parts[0]]);
        assert(join_seq(parts, sep) =~= parts[0] + sep + parts[1]);
    } else {
        lemma_join_take_step(parts.drop_first(), sep);
        assert(parts.drop_first().take(parts.drop_first().len() - 1) =~= parts.take(
            parts.len() - 1,
        ).drop_first());
        assert(join_seq(parts, sep) == parts[0] + sep + join_seq(parts.drop_first(), sep));
        assert(join_seq(parts.take(parts.len() - 1), sep) == parts[0] + sep + join_seq(
            parts.take(parts.len() - 1).drop_first(),
            sep,
        ));
        assert(join_seq(parts, sep) =~= join_seq(parts.take(parts.len() - 1), sep) + sep
            + parts[parts.len() - 1]);
    }
}

/// The decimal digit character for `n` in 0..10.
pub open spec fn dec_digit(n: int) -> char {
    if n == 0 {
        '0'
    } else if n == 1 {
        '1'
    } else if n == 2 {
        '2'
    } else if n == 3 {
        '3'
    } else if n == 4 {
        '4'
    } else if n == 5 {
        '5'
    } else if n == 6 {
        '6'
    } else if n == 7 {
        '7'
    } else if n == 8 {
        '8'
    } else {
        '9'
    }
}

/// The usual decimal rendering of `n`, without leading zeros.
pub open spec fn dec_seq(n: nat) -> Seq<char>
    decreases n,
{
    if n < 10 {
        seq![dec_digit(n as int)]
    } else {
        dec_seq(n / 10).push(dec_digit((n % 10) as int))
    }
}

fn dec_digit_exec(n: u64) -> (r: char)
    requires
        n < 10,
    ensures
        r == dec_digit(n as int),
{
    match n {
        0 => '0',
        1 => '1',
        2 => '2',
        3 => '3',
        4 => '4',
        5 => '5',
        6 => '6',
        7 => '7',
        8 => '8',
        _ => '9',
    }
}

pub fn dec_string(n: u64) -> (r: String)
    ensures
        r@ == dec_seq(n as nat),
    decreases n,
{
    if n < 10 {
        let mut r = String::new();
        push_char(&mut r, dec_digit_exec(n));
        assert(r@ =~= dec_seq(n as nat));
        r
    } else {
        let mut r = dec_string(n / 10);
        push_char(&mut r, dec_digit_exec(n % 10));
        r
    }
}

} // verus!
