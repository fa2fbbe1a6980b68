//! Text tokenisation for the full-text index.
//!
//! A text is lowercased, split on whitespace and ASCII punctuation, each
//! piece is trimmed of non-alphanumeric edges, and pieces shorter than two
//! characters are dropped.

use vstd::prelude::*;
use crate::text::chars_to_string;

verus! {

/// What `str::to_lowercase` returns: a function of the characters alone.
pub uninterp spec fn lower_of(s: Seq<char>) -> Seq<char>;

/// What `char::is_whitespace` returns for a character.
pub uninterp spec fn spec_is_whitespace(c: char) -> bool;

/// What `char::is_alphanumeric` returns for a character.
pub uninterp spec fn spec_is_alphanumeric(c: char) -> bool;

/// Relies on `str::to_lowercase`: the result depends on the characters
/// alone, and an empty string stays empty.
#[verifier::external_body]
pub fn lowercase(s: &str) -> (r: String)
    ensures
        r@ == lower_of(s@),
        s@.len() == 0 ==> r@.len() == 0,
{
    s.to_lowercase()
}

/// Relies on `str::chars`: the characters of a string, in order.
#[verifier::external_body]
pub fn str_to_chars(s: &str) -> (r: Vec<char>)
    ensures
        r@ == s@,
{
    s.chars().collect()
}

/// Relies on `char::is_whitespace`: the Unicode white-space property.
pub assume_specification[ char::is_whitespace ](c: char) -> (r: bool)
    ensures
        r == spec_is_whitespace(c),
;

/// Relies on `char::is_alphanumeric`: the Unicode alphanumeric classes.
pub assume_specification[ char::is_alphanumeric ](c: char) -> (r: bool)
    ensures
        r == spec_is_alphanumeric(c),
;

/// ASCII punctuation: the four documented ranges `!..=/`, `:..=@`,
/// `[..=`` ` ``, and `{..=~`.
pub open spec fn spec_is_ascii_punct(c: char) -> bool {
    ||| 0x21 <= (c as u32) <= 0x2F
    ||| 0x3A <= (c as u32) <= 0x40
    ||| 0x5B <= (c as u32) <= 0x60
    ||| 0x7B <= (c as u32) <= 0x7E
}

/// Whether `c` is ASCII punctuation.
pub fn is_ascii_punct(c: char) -> (r: bool)
    ensures
        r == spec_is_ascii_punct(c),
{
    let u = c as u32;
    (0x21 <= u && u <= 0x2F) || (0x3A <= u && u <= 0x40) || (0x5B <= u && u <= 0x60) || (0x7B <= u
        && u <= 0x7E)
}

/// A separator for splitting: whitespace or ASCII punctuation.
pub open spec fn spec_is_sep(c: char) -> bool {
    spec_is_whitespace(c) || spec_is_ascii_punct(c)
}

/// The pieces of `s` between separators, empty pieces included, defined by
/// how one more character extends the split.
pub open spec fn spec_split(s: Seq<char>) -> Seq<Seq<char>>
    decreases s.len(),
{
    if s.len() == 0 {
        seq![Seq::<char>::empty()]
    } else if spec_is_sep(s.last()) {
        spec_split(s.drop_last()).push(Seq::<char>::empty())
    } else {
        let prev = spec_split(s.drop_last());
        prev.update(prev.len() - 1, prev.last().push(s.last()))
    }
}

/// A piece with its leading non-alphanumeric characters removed.
pub open spec fn spec_trim_front(p: Seq<char>) -> Seq<char>
    decreases p.len(),
{
    if p.len() > 0 && !spec_is_alphanumeric(p[0]) {
        spec_trim_front(p.skip(1))
    } else {
        p
    }
}

/// A piece with its trailing non-alphanumeric characters removed.
pub open spec fn spec_trim_back(p: Seq<char>) -> Seq<char>
    decreases p.len(),
{
    if p.len() > 0 && !spec_is_alphanumeric(p.last()) {
        spec_trim_back(p.drop_last())
    } else {
        p
    }
}

/// A piece trimmed of non-alphanumeric characters on both edges.
pub open spec fn spec_trim(p: Seq<char>) -> Seq<char> {
    spec_trim_back(spec_trim_front(p))
}

/// The trimmed pieces of length at least two, in order.
pub open spec fn spec_clean(pieces: Seq<Seq<char>>) -> Seq<Seq<char>>
    decreases pieces.len(),
{
    if pieces.len() == 0 {
        Seq::empty()
    } else {
        let rest = spec_clean(pieces.drop_last());
        let t = spec_trim(pieces.last());
        if t.len() > 1 {
            rest.push(t)
        } else {
            rest
        }
    }
}

/// The tokens of `s`: lowercase, split, trim, and keep what is at least two
/// characters long.
pub open spec fn spec_tokenize(s: Seq<char>) -> Seq<Seq<char>> {
    spec_clean(spec_split(lower_of(s)))
}

/// Remove non-alphanumeric characters from both edges of a piece.
fn trim_piece(p: &Vec<char>) -> (r: Vec<char>)
    ensures
        r@ == spec_trim(p@),
{
    let mut a: usize = 0;
    let n = p.len();
    proof {
        assert(p@.skip(0) =~= p@);
    }
    while a < n && !p[a].is_alphanumeric()
        invariant
            a <= n == p@.len(),
            spec_trim_front(p@) == spec_trim_front(p@.skip(a as int)),
        decreases n - a,
    {
        proof {
            assert(p@.skip(a as int)[0] == p@[a as int]);
            assert(p@.skip(a as int).skip(1) =~= p@.skip(a as int + 1));
        }
        a = a + 1;
    }
    proof {
        if a < n {
            assert(p@.skip(a as int)[0] == p@[a as int]);
        } else {
            assert(p@.skip(a as int).len() == 0);
        }
        assert(spec_trim_front(p@) == p@.skip(a as int));
    }
    let mut b: usize = n;
    proof {
        assert(p@.skip(a as int).take(n - a) =~= p@.skip(a as int));
    }
    while b > a && !p[b - 1].is_alphanumeric()
        invariant
            a <= b <= n == p@.len(),
            spec_trim_front(p@) == p@.skip(a as int),
            spec_trim_back(p@.skip(a as int)) == spec_trim_back(
                p@.skip(a as int).take(b - a),
            ),
        decreases b,
    {
        proof {
            let cur = p@.skip(a as int).take(b - a);
            assert(cur.last() == p@[b - 1]);
            assert(cur.drop_last() =~= p@.skip(a as int).take(b - 1 - a));
        }
        b = b - 1;
    }
    proof {
        let cur = p@.skip(a as int).take(b - a);
        if b > a {
            assert(cur.last() == p@[b - 1]);
            assert(spec_is_alphanumeric(cur.last()));
        } else {
            assert(cur.len() == 0);
        }
        assert(spec_trim_back(cur) == cur);
    }
    let mut out: Vec<char> = Vec::new();
    let mut i: usize = a;
    while i < b
        invariant
            a <= i <= b <= p@.len(),
            out@ =~= p@.subrange(a as int, i as int),
        decreases b - i,
    {
        out.push(p[i]);
        i = i + 1;
    }
    proof {
        assert(out@ =~= p@.skip(a as int).take(b - a));
    }
    out
}

/// Tokenise text: lowercase it, split on whitespace and ASCII punctuation,
/// trim non-alphanumeric edges, and drop pieces shorter than two characters.
pub fn tokenize(text: &str) -> (r: Vec<String>)
    ensures
        r@.len() == spec_tokenize(text@).len(),
        forall|i: int| 0 <= i < r@.len() ==> (#[trigger] r@[i])@ == spec_tokenize(text@)[i],
{
    let lowered = lowercase(text);
    let chars = str_to_chars(lowered.as_str());
    let n = chars.len();

    // Split on separators, keeping empty pieces.
    let mut pieces: Vec<Vec<char>> = Vec::new();
    pieces.push(Vec::new());
    proof {
        assert(chars@.take(0) =~= Seq::<char>::empty());
        assert(Seq::new(pieces@.len(), |k: int| pieces@[k]@) =~= spec_split(chars@.take(0)));
    }
    let mut i: usize = 0;
    while i < n
        invariant
            i <= n == chars@.len(),
            pieces@.len() > 0,
            Seq::new(pieces@.len(), |k: int| pieces@[k]@) == spec_split(chars@.take(i as int)),
        decreases n - i,
    {
        let ghost before = Seq::new(pieces@.len(), |k: int| pieces@[k]@);
        let c = chars[i];
        if c.is_whitespace() || is_ascii_punct(c) {
            pieces.push(Vec::new());
        } else {
            let last = pieces.len() - 1;
            let mut piece = pieces.pop().unwrap();
            piece.push(c);
            pieces.push(piece);
        }
        proof {
            let stepped = chars@.take(i as int + 1);
            assert(stepped.drop_last() =~= chars@.take(i as int));
            assert(stepped.last() == chars@[i as int]);
            assert(Seq::new(pieces@.len(), |k: int| pieces@[k]@) =~= spec_split(stepped));
        }
        i = i + 1;
    }
    proof {
        assert(chars@.take(n as int) =~= chars@);
    }

    // Trim each piece and keep the ones long enough.
    let m = pieces.len();
    let mut out: Vec<String> = Vec::new();
    let mut j: usize = 0;
    proof {
        assert(pieces@.take(0) =~= Seq::<Vec<char>>::empty());
        assert(spec_clean(Seq::new(0, |k: int| pieces@[k]@)) =~= Seq::<Seq<char>>::empty());
    }
    while j < m
        invariant
            j <= m == pieces@.len(),
            Seq::new(pieces@.len(), |k: int| pieces@[k]@) == spec_split(lower_of(text@)),
            out@.len() == spec_clean(Seq::new(j as nat, |k: int| pieces@[k]@)).len(),
            forall|i2: int|
                0 <= i2 < out@.len() ==> (#[trigger] out@[i2])@ == spec_clean(
                    Seq::new(j as nat, |k: int| pieces@[k]@),
                )[i2],
        decreases m - j,
    {
        let t = trim_piece(&pieces[j]);
        let ghost upto = Seq::new(j as nat, |k: int| pieces@[k]@);
        let ghost next = Seq::new((j + 1) as nat, |k: int| pieces@[k]@);
        proof {
            assert(next.drop_last() =~= upto);
            assert(next.last() == pieces@[j as int]@);
        }
        if t.len() > 1 {
            out.push(chars_to_string(&t));
        }
        j = j + 1;
    }
    proof {
        assert(Seq::new(m as nat, |k: int| pieces@[k]@) =~= Seq::new(
            pieces@.len(),
            |k: int| pieces@[k]@,
        ));
    }
    out
}

} // verus!
