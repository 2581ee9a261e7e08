//! The storyboard descriptor: its format, and the tiers that it describes.

use vstd::prelude::*;
use vstd::std_specs::iter::IteratorSpec;

verus! {

broadcast use vstd::string::axiom_spec_iter, vstd::string::next_postcondition;

/// The characters of a text, one by one.
pub(crate) fn chars_of(s: &str) -> (r: Vec<char>)
    ensures
        r@ == s@,
{
    let mut it = s.chars();
    let mut out: Vec<char> = Vec::new();
    loop
        invariant
            it.obeys_prophetic_iter_laws(),
            it.decrease() is Some,
            out@ + it.remaining() == s@,
        ensures
            out@ == s@,
        decreases it.decrease()->0,
    {
        match it.next() {
            Some(c) => {
                proof {
                    assert(out@.push(c) + it.remaining() =~= s@);
                }
                out.push(c);
            },
            None => {
                assert(out@ =~= s@);
                break;
            },
        }
    }
    out
}

/// The pieces of `s` between the occurrences of `sep`, in order: one more
/// piece than there are separators, empty pieces included.
pub open spec fn split_on(s: Seq<char>, sep: char) -> Seq<Seq<char>>
    decreases s.len(),
{
    if s.len() == 0 {
        seq![Seq::<char>::empty()]
    } else {
        let rest = split_on(s.drop_last(), sep);
        if s.last() == sep {
            rest.push(Seq::<char>::empty())
        } else {
            rest.update(rest.len() - 1, rest.last().push(s.last()))
        }
    }
}

/// There is at least one piece, and more than one exactly when the separator
/// occurs.
pub proof fn lemma_split_on_len(s: Seq<char>, sep: char)
    ensures
        split_on(s, sep).len() >= 1,
        split_on(s, sep).len() > 1 <==> s.contains(sep),
    decreases s.len(),
{
    if s.len() > 0 {
        lemma_split_on_len(s.drop_last(), sep);
        if s.last() == sep {
            assert(s[s.len() - 1] == sep);
        } else {
            if s.drop_last().contains(sep) {
                let i = choose|i: int| 0 <= i < s.drop_last().len() && s.drop_last()[i] == sep;
                assert(s[i] == sep);
            }
            if s.contains(sep) {
                let i = choose|i: int| 0 <= i < s.len() && s[i] == sep;
                assert(s.drop_last()[i] == sep);
            }
        }
    }
}

/// The pieces of `cs[from..to]` between occurrences of `sep`, as index ranges
/// into `cs`.
fn split_ranges(cs: &Vec<char>, from: usize, to: usize, sep: char) -> (r: Vec<(usize, usize)>)
    requires
        from <= to <= cs@.len(),
    ensures
        r@.len() == split_on(cs@.subrange(from as int, to as int), sep).len(),
        forall|k: int|
            0 <= k < r@.len() ==> from <= (#[trigger] r@[k]).0 <= r@[k].1 <= to
                && cs@.subrange(r@[k].0 as int, r@[k].1 as int) == split_on(
                cs@.subrange(from as int, to as int),
                sep,
            )[k],
{
    let mut out: Vec<(usize, usize)> = Vec::new();
    let mut cur: usize = from;
    let mut i: usize = from;
    while i < to
        invariant
            from <= cur <= i <= to <= cs@.len(),
            out@.len() + 1 == split_on(cs@.subrange(from as int, i as int), sep).len(),
            forall|k: int|
                0 <= k < out@.len() ==> from <= (#[trigger] out@[k]).0 <= out@[k].1 <= cur
                    && cs@.subrange(out@[k].0 as int, out@[k].1 as int) == split_on(
                    cs@.subrange(from as int, i as int),
                    sep,
                )[k],
            cs@.subrange(cur as int, i as int) == split_on(
                cs@.subrange(from as int, i as int),
                sep,
            ).last(),
        decreases to - i,
    {
        let ghost before = split_on(cs@.subrange(from as int, i as int), sep);
        proof {
            let s = cs@.subrange(from as int, i + 1);
            assert(s.drop_last() =~= cs@.subrange(from as int, i as int));
            assert(s.last() == cs@[i as int]);
        }
        if cs[i] == sep {
            out.push((cur, i));
            cur = i + 1;
            proof {
                assert(cs@.subrange(cur as int, i + 1) =~= Seq::<char>::empty());
            }
        } else {
            proof {
                assert(cs@.subrange(cur as int, i + 1) =~= cs@.subrange(cur as int, i as int).push(
                    cs@[i as int],
                ));
            }
        }
        i = i + 1;
    }
    out.push((cur, to));
    out
}

/// The text between the URL prefix and the token in the head of a descriptor.
pub open spec fn head_marker() -> Seq<char> {
    seq!['$', 'L', '/', '$', 'N', '.', 'j', 'p', 'g', '?', 's', 'q', 'p', '=']
}

/// The marker starts at index `p` of `h`.
pub open spec fn marker_at(h: Seq<char>, p: int) -> bool {
    0 <= p && p + 14 <= h.len() && h.subrange(p, p + 14) == head_marker()
}

/// The marker occurs in `h` at `p` and nowhere else, so that splitting `h` on
/// it gives exactly two pieces.
pub open spec fn single_marker(h: Seq<char>, p: int) -> bool {
    marker_at(h, p) && forall|q: int| #[trigger] marker_at(h, q) ==> q == p
}

/// Whether the marker starts at index `p` of `cs`.
fn marker_at_index(cs: &Vec<char>, p: usize) -> (r: bool)
    requires
        p + 14 <= cs@.len(),
    ensures
        r == (cs@.subrange(p as int, p + 14) == head_marker()),
{
    let m: [char; 14] = ['$', 'L', '/', '$', 'N', '.', 'j', 'p', 'g', '?', 's', 'q', 'p', '='];
    assert(m@ =~= head_marker());
    let n = cs.len();
    let mut k: usize = 0;
    while k < 14
        invariant
            n == cs@.len(),
            p + 14 <= n,
            m@ == head_marker(),
            k <= 14,
            forall|j: int| 0 <= j < k ==> cs@[p + j] == head_marker()[j],
        decreases 14 - k,
    {
        if cs[p + k] != m[k] {
            assert(cs@.subrange(p as int, p + 14)[k as int] != head_marker()[k as int]);
            return false;
        }
        k = k + 1;
    }
    assert(cs@.subrange(p as int, p + 14) =~= head_marker());
    true
}

/// Where the marker occurs in `cs[from..to]`, as an index into `cs`, when it
/// occurs there exactly once.
fn find_single_marker(cs: &Vec<char>, from: usize, to: usize) -> (r: Option<usize>)
    requires
        from <= to <= cs@.len(),
    ensures
        r matches Some(p) ==> from <= p && single_marker(
            cs@.subrange(from as int, to as int),
            p - from,
        ),
        r is None ==> forall|p: int| !single_marker(cs@.subrange(from as int, to as int), p),
{
    let ghost h = cs@.subrange(from as int, to as int);
    if to - from < 14 {
        return None;
    }
    let mut found: Option<usize> = None;
    let mut q: usize = from;
    while q <= to - 14
        invariant
            from <= q,
            from + 14 <= to <= cs@.len(),
            h == cs@.subrange(from as int, to as int),
            found matches Some(f) ==> from <= f < q && marker_at(h, f - from),
            forall|j: int|
                0 <= j < q - from && #[trigger] marker_at(h, j) ==> (found matches Some(f) && j
                    == f - from),
        decreases to - q,
    {
        let here = marker_at_index(cs, q);
        assert(h.subrange(q - from, q - from + 14) =~= cs@.subrange(q as int, q + 14));
        if here {
            if let Some(f) = found {
                assert forall|p: int| !single_marker(h, p) by {
                    if single_marker(h, p) {
                        assert(marker_at(h, (q - from) as int));
                        assert(marker_at(h, f - from));
                    }
                }
                return None;
            }
            found = Some(q);
        }
        q = q + 1;
    }
    assert forall|j: int| #[trigger] marker_at(h, j) implies (found matches Some(f) && j == f
        - from) by {
        assert(j < q - from);
    }
    found
}

/// A decimal digit.
pub open spec fn is_digit(c: char) -> bool {
    '0' <= c && c <= '9'
}

/// The value of a string of decimal digits.
pub open spec fn digits_value(d: Seq<char>) -> int
    decreases d.len(),
{
    if d.len() == 0 {
        0
    } else {
        digits_value(d.drop_last()) * 10 + (d.last() as int - '0' as int)
    }
}

/// The digits of a number written with an optional leading `+`.
pub open spec fn unsigned_digits(s: Seq<char>) -> Seq<char> {
    if s.len() > 0 && s[0] == '+' {
        s.drop_first()
    } else {
        s
    }
}

/// The value of `s` read as an unsigned 8-bit number: an optional `+`, then
/// at least one decimal digit, with a value of at most 255.
pub open spec fn u8_value(s: Seq<char>) -> Option<u8> {
    let d = unsigned_digits(s);
    if d.len() > 0 && (forall|i: int| 0 <= i < d.len() ==> is_digit(#[trigger] d[i]))
        && digits_value(d) <= 255 {
        Some(digits_value(d) as u8)
    } else {
        None
    }
}

/// Reads `cs[from..to]` as an unsigned 8-bit number.
fn parse_u8(cs: &Vec<char>, from: usize, to: usize) -> (r: Option<u8>)
    requires
        from <= to <= cs@.len(),
    ensures
        r == u8_value(cs@.subrange(from as int, to as int)),
{
    let ghost s = cs@.subrange(from as int, to as int);
    let mut start = from;
    if start < to && cs[start] == '+' {
        start = start + 1;
    }
    let ghost d = cs@.subrange(start as int, to as int);
    assert(unsigned_digits(s) =~= d);
    if start == to {
        return None;
    }
    let mut v: u32 = 0;
    let mut i: usize = start;
    while i < to
        invariant
            start <= i <= to <= cs@.len(),
            d == cs@.subrange(start as int, to as int),
            s == cs@.subrange(from as int, to as int),
            unsigned_digits(s) == d,
            forall|k: int| 0 <= k < i - start ==> is_digit(#[trigger] d[k]),
            v == if digits_value(cs@.subrange(start as int, i as int)) <= 255 {
                digits_value(cs@.subrange(start as int, i as int))
            } else {
                256
            },
            digits_value(cs@.subrange(start as int, i as int)) >= 0,
        decreases to - i,
    {
        let c = cs[i];
        if !('0' <= c && c <= '9') {
            assert(!is_digit(d[i - start]));
            return None;
        }
        let ghost prefix = cs@.subrange(start as int, i + 1);
        assert(prefix.drop_last() =~= cs@.subrange(start as int, i as int));
        let digit: u32 = (c as u32) - ('0' as u32);
        if v <= 255 {
            v = v * 10 + digit;
            if v > 255 {
                v = 256;
            }
        }
        i = i + 1;
    }
    assert(cs@.subrange(start as int, to as int) =~= d);
    if v <= 255 {
        Some(v as u8)
    } else {
        None
    }
}

/// Why a descriptor could not be read. `tier` counts the tiers from 0, and
/// `field` is the position of the field among the `#`-separated ones.
#[derive(Clone, Copy, Debug, PartialEq, Eq, Structural)]
pub enum ParseError {
    /// The descriptor has no `|` at all.
    EmptyDescriptor,
    /// The head does not hold the marker `$L/$N.jpg?sqp=` exactly once.
    MalformedHead,
    /// The tier has too few fields: `(tier, field)`.
    MissingField(usize, usize),
    /// The field is not an unsigned number of at most 255: `(tier, field)`.
    NotANumber(usize, usize),
}

/// What a tier holds: the URL parts shared by all tiers, its index, its
/// signature, the size of its grid of tiles and the size of one tile.
pub struct EndpointView {
    pub start: Seq<char>,
    pub sqp: Seq<char>,
    pub number: int,
    pub sigh: Seq<char>,
    pub width: u8,
    pub height: u8,
    pub image_width: u8,
    pub image_height: u8,
}

/// One tier of a storyboard: where its sheets are, and how each sheet is cut
/// into a grid of `width` x `height` tiles of `image_width` x `image_height`
/// pixels.
#[derive(Debug)]
pub struct Endpoint {
    start: String,
    sqp: String,
    number: usize,
    sigh: String,
    width: u8,
    height: u8,
    image_width: u8,
    image_height: u8,
}

impl View for Endpoint {
    type V = EndpointView;

    closed spec fn view(&self) -> EndpointView {
        EndpointView {
            start: self.start@,
            sqp: self.sqp@,
            number: self.number as int,
            sigh: self.sigh@,
            width: self.width,
            height: self.height,
            image_width: self.image_width,
            image_height: self.image_height,
        }
    }
}

/// The tier at index `idx`, read from its text `t`. The fields are read in
/// order 0, 1, 3, 4, 7, and the first one that is missing or not a number
/// gives the error.
pub open spec fn tier_spec(start: Seq<char>, sqp: Seq<char>, idx: int, t: Seq<char>) -> Result<
    EndpointView,
    ParseError,
> {
    let f = split_on(t, '#');
    let tier = idx as usize;
    if u8_value(f[0]) is None {
        Err(ParseError::NotANumber(tier, 0))
    } else if f.len() < 2 {
        Err(ParseError::MissingField(tier, 1))
    } else if u8_value(f[1]) is None {
        Err(ParseError::NotANumber(tier, 1))
    } else if f.len() < 4 {
        Err(ParseError::MissingField(tier, 3))
    } else if u8_value(f[3]) is None {
        Err(ParseError::NotANumber(tier, 3))
    } else if f.len() < 5 {
        Err(ParseError::MissingField(tier, 4))
    } else if u8_value(f[4]) is None {
        Err(ParseError::NotANumber(tier, 4))
    } else if f.len() < 8 {
        Err(ParseError::MissingField(tier, 7))
    } else {
        Ok(
            EndpointView {
                start,
                sqp,
                number: idx,
                sigh: f[7],
                width: u8_value(f[3])->Some_0,
                height: u8_value(f[4])->Some_0,
                image_width: u8_value(f[0])->Some_0,
                image_height: u8_value(f[1])->Some_0,
            },
        )
    }
}

/// The tiers read from their texts, in order; the first tier that fails
/// gives the error.
pub open spec fn tiers_spec(start: Seq<char>, sqp: Seq<char>, tiers: Seq<Seq<char>>) -> Result<
    Seq<EndpointView>,
    ParseError,
>
    decreases tiers.len(),
{
    if tiers.len() == 0 {
        Ok(seq![])
    } else {
        match tiers_spec(start, sqp, tiers.drop_last()) {
            Err(e) => Err(e),
            Ok(done) => match tier_spec(start, sqp, tiers.len() - 1, tiers.last()) {
                Err(e) => Err(e),
                Ok(t) => Ok(done.push(t)),
            },
        }
    }
}

/// What a descriptor describes. It is a `|`-separated list: the head
/// `<prefix>$L/$N.jpg?sqp=<token>`, then one text per tier.
pub open spec fn parse_spec(s: Seq<char>) -> Result<Seq<EndpointView>, ParseError> {
    let parts = split_on(s, '|');
    if !s.contains('|') {
        Err(ParseError::EmptyDescriptor)
    } else if exists|p: int| single_marker(parts[0], p) {
        let p = choose|p: int| single_marker(parts[0], p);
        tiers_spec(parts[0].take(p), parts[0].skip(p + 14), parts.skip(1))
    } else {
        Err(ParseError::MalformedHead)
    }
}

/// Once a prefix of the tiers fails, the whole list fails with the same
/// error.
proof fn lemma_tiers_error_persists(
    start: Seq<char>,
    sqp: Seq<char>,
    tiers: Seq<Seq<char>>,
    n: int,
    e: ParseError,
)
    requires
        0 <= n <= tiers.len(),
        tiers_spec(start, sqp, tiers.take(n)) == Err::<Seq<EndpointView>, ParseError>(e),
    ensures
        tiers_spec(start, sqp, tiers) == Err::<Seq<EndpointView>, ParseError>(e),
    decreases tiers.len() - n,
{
    if n < tiers.len() {
        assert(tiers.take(n + 1).drop_last() =~= tiers.take(n));
        lemma_tiers_error_persists(start, sqp, tiers, n + 1, e);
    } else {
        assert(tiers.take(n) =~= tiers);
    }
}

/// The text `text[from..to]`, counted in characters.
fn text_between(text: &str, from: usize, to: usize) -> (r: String)
    requires
        from <= to <= text@.len(),
    ensures
        r@ == text@.subrange(from as int, to as int),
{
    text.substring_char(from, to).to_owned()
}

/// Reads the tier at index `idx` from the characters `cs[from..to]` of `text`.
fn parse_tier(
    text: &str,
    cs: &Vec<char>,
    from: usize,
    to: usize,
    start: &String,
    sqp: &String,
    idx: usize,
) -> (r: Result<Endpoint, ParseError>)
    requires
        cs@ == text@,
        from <= to <= cs@.len(),
    ensures
        match r {
            Ok(e) => tier_spec(start@, sqp@, idx as int, cs@.subrange(from as int, to as int))
                == Ok::<EndpointView, ParseError>(e@),
            Err(err) => tier_spec(
                start@,
                sqp@,
                idx as int,
                cs@.subrange(from as int, to as int),
            ) == Err::<EndpointView, ParseError>(err),
        },
{
    let ghost t = cs@.subrange(from as int, to as int);
    let fields = split_ranges(cs, from, to, '#');
    proof {
        lemma_split_on_len(t, '#');
    }
    let image_width = match parse_u8(cs, fields[0].0, fields[0].1) {
        Some(v) => v,
        None => {
            return Err(ParseError::NotANumber(idx, 0));
        },
    };
    if fields.len() < 2 {
        return Err(ParseError::MissingField(idx, 1));
    }
    let image_height = match parse_u8(cs, fields[1].0, fields[1].1) {
        Some(v) => v,
        None => {
            return Err(ParseError::NotANumber(idx, 1));
        },
    };
    if fields.len() < 4 {
        return Err(ParseError::MissingField(idx, 3));
    }
    let width = match parse_u8(cs, fields[3].0, fields[3].1) {
        Some(v) => v,
        None => {
            return Err(ParseError::NotANumber(idx, 3));
        },
    };
    if fields.len() < 5 {
        return Err(ParseError::MissingField(idx, 4));
    }
    let height = match parse_u8(cs, fields[4].0, fields[4].1) {
        Some(v) => v,
        None => {
            return Err(ParseError::NotANumber(idx, 4));
        },
    };
    if fields.len() < 8 {
        return Err(ParseError::MissingField(idx, 7));
    }
    let sigh = text_between(text, fields[7].0, fields[7].1);
    Ok(
        Endpoint {
            start: start.clone(),
            sqp: sqp.clone(),
            number: idx,
            sigh,
            width,
            height,
            image_width,
            image_height,
        },
    )
}

/// The tiers of a storyboard descriptor, in order, or why it cannot be read.
pub fn parse_value(data: String) -> (r: Result<Vec<Endpoint>, ParseError>)
    ensures
        match r {
            Ok(v) => parse_spec(data@) == Ok::<Seq<EndpointView>, ParseError>(
                v@.map_values(|e: Endpoint| e@),
            ),
            Err(e) => parse_spec(data@) == Err::<Seq<EndpointView>, ParseError>(e),
        },
{
    let text = data.as_str();
    let cs = chars_of(text);
    let ghost s = cs@;
    let parts = split_ranges(&cs, 0, cs.len(), '|');
    proof {
        assert(cs@.subrange(0, cs@.len() as int) =~= s);
        lemma_split_on_len(s, '|');
    }
    if parts.len() < 2 {
        return Err(ParseError::EmptyDescriptor);
    }
    let (h0, h1) = parts[0];
    let p = match find_single_marker(&cs, h0, h1) {
        Some(p) => p,
        None => {
            return Err(ParseError::MalformedHead);
        },
    };
    let ghost head = split_on(s, '|')[0];
    proof {
        assert(single_marker(head, p - h0));
        let c = choose|q: int| single_marker(head, q);
        assert(marker_at(head, p - h0));
        assert(c == p - h0);
        assert(head.take(p - h0) =~= cs@.subrange(h0 as int, p as int));
        assert(head.skip(p - h0 + 14) =~= cs@.subrange(p + 14, h1 as int));
    }
    let start = text_between(text, h0, p);
    let sqp = text_between(text, p + 14, h1);
    let ghost tiers = split_on(s, '|').skip(1);
    let mut endpoints: Vec<Endpoint> = Vec::new();
    proof {
        assert(s.contains('|'));
        assert(parse_spec(s) == tiers_spec(start@, sqp@, tiers));
        assert(tiers.take(0) =~= Seq::<Seq<char>>::empty());
        assert(endpoints@.map_values(|e: Endpoint| e@) =~= Seq::<EndpointView>::empty());
    }
    let mut k: usize = 1;
    while k < parts.len()
        invariant
            1 <= k <= parts@.len(),
            s == data@,
            parse_spec(s) == tiers_spec(start@, sqp@, tiers),
            cs@ == text@,
            s == cs@,
            parts@.len() == split_on(s, '|').len(),
            tiers == split_on(s, '|').skip(1),
            forall|j: int|
                0 <= j < parts@.len() ==> (#[trigger] parts@[j]).0 <= parts@[j].1 <= cs@.len()
                    && cs@.subrange(parts@[j].0 as int, parts@[j].1 as int) == split_on(
                    s,
                    '|',
                )[j],
            tiers_spec(start@, sqp@, tiers.take(k - 1)) == Ok::<Seq<EndpointView>, ParseError>(
                endpoints@.map_values(|e: Endpoint| e@),
            ),
        decreases parts@.len() - k,
    {
        let (a, b) = parts[k];
        let ghost done = endpoints@.map_values(|e: Endpoint| e@);
        proof {
            assert(tiers.take(k as int).drop_last() =~= tiers.take(k - 1));
            assert(tiers.take(k as int).last() == cs@.subrange(a as int, b as int));
        }
        match parse_tier(text, &cs, a, b, &start, &sqp, k - 1) {
            Ok(e) => {
                endpoints.push(e);
                assert(endpoints@.map_values(|e: Endpoint| e@) =~= done.push(e@));
            },
            Err(err) => {
                proof {
                    lemma_tiers_error_persists(start@, sqp@, tiers, k as int, err);
                }
                return Err(err);
            },
        }
        k = k + 1;
    }
    assert(tiers.take(k - 1) =~= tiers);
    Ok(endpoints)
}

/// The decimal digit with value `d`.
pub open spec fn digit_char(d: int) -> char {
    seq!['0', '1', '2', '3', '4', '5', '6', '7', '8', '9'][d]
}

/// `n` written in decimal, without leading zeros.
pub open spec fn decimal(n: nat) -> Seq<char>
    decreases n,
{
    if n < 10 {
        seq![digit_char(n as int)]
    } else {
        decimal(n / 10).push(digit_char((n % 10) as int))
    }
}

/// The URL of sheet `n` of a tier:
/// `<prefix><tier>/M<n>.jpg?sqp=<token>&sigh=<signature>`.
pub open spec fn sheet_url_spec(e: EndpointView, n: nat) -> Seq<char> {
    e.start + decimal(e.number as nat) + seq!['/', 'M'] + decimal(n) + seq![
        '.',
        'j',
        'p',
        'g',
        '?',
        's',
        'q',
        'p',
        '=',
    ] + e.sqp + seq!['&', 's', 'i', 'g', 'h', '='] + e.sigh
}

/// The top-left corner and the size of tile `k` of a sheet whose tiles are
/// laid out row after row, `width` to a row.
pub open spec fn tile_rect(e: EndpointView, k: int) -> (u32, u32, u32, u32) {
    (
        ((k % e.width as int) * e.image_width) as u32,
        ((k / e.width as int) * e.image_height) as u32,
        e.image_width as u32,
        e.image_height as u32,
    )
}

/// Appends `n` in decimal.
fn push_decimal(s: &mut String, n: usize)
    ensures
        final(s)@ == old(s)@ + decimal(n as nat),
    decreases n,
{
    let digits = "0123456789";
    proof {
        reveal_strlit("0123456789");
    }
    if n >= 10 {
        push_decimal(s, n / 10);
    }
    let d = n % 10;
    let digit = digits.substring_char(d, d + 1);
    assert(digit@ =~= seq![digit_char(d as int)]);
    s.append(digit);
    assert(s@ =~= old(s)@ + decimal(n as nat));
}

impl Endpoint {
    /// The URL of the `n`-th sheet of tiles of this tier.
    pub fn sheet_url(&self, n: usize) -> (r: String)
        ensures
            r@ == sheet_url_spec(self@, n as nat),
    {
        let mut url = self.start.clone();
        push_decimal(&mut url, self.number);
        let m = "/M";
        let jpg = ".jpg?sqp=";
        let sigh = "&sigh=";
        proof {
            reveal_strlit("/M");
            reveal_strlit(".jpg?sqp=");
            reveal_strlit("&sigh=");
        }
        url.append(m);
        push_decimal(&mut url, n);
        url.append(jpg);
        url.append(self.sqp.as_str());
        url.append(sigh);
        url.append(self.sigh.as_str());
        assert(url@ =~= sheet_url_spec(self@, n as nat));
        url
    }

    /// Width and height in pixels of one sheet: the whole grid of tiles.
    pub fn sheet_size(&self) -> (r: (u32, u32))
        ensures
            r.0 == self@.width * self@.image_width,
            r.1 == self@.height * self@.image_height,
    {
        let w = self.width as u32;
        let h = self.height as u32;
        let iw = self.image_width as u32;
        let ih = self.image_height as u32;
        assert(w * iw <= 255 * 255) by (nonlinear_arith)
            requires
                w <= 255,
                iw <= 255,
        ;
        assert(h * ih <= 255 * 255) by (nonlinear_arith)
            requires
                h <= 255,
                ih <= 255,
        ;
        (w * iw, h * ih)
    }

    /// Where each tile lies on a sheet, in the order of the frames: row after
    /// row, left to right.
    pub fn tile_rects(&self) -> (r: Vec<(u32, u32, u32, u32)>)
        ensures
            r@.len() == self@.width * self@.height,
            forall|k: int| 0 <= k < r@.len() ==> #[trigger] r@[k] == tile_rect(self@, k),
    {
        let w = self.width as usize;
        let h = self.height as usize;
        let iw = self.image_width as u32;
        let ih = self.image_height as u32;
        assert(w * h <= 255 * 255) by (nonlinear_arith)
            requires
                w <= 255,
                h <= 255,
        ;
        let count = w * h;
        let mut out: Vec<(u32, u32, u32, u32)> = Vec::new();
        let mut k: usize = 0;
        while k < count
            invariant
                w == self@.width,
                h == self@.height,
                iw == self@.image_width,
                ih == self@.image_height,
                count == w * h,
                count <= 255 * 255,
                k <= count,
                out@.len() == k,
                forall|j: int| 0 <= j < k ==> #[trigger] out@[j] == tile_rect(self@, j),
            decreases count - k,
        {
            assert(w > 0) by (nonlinear_arith)
                requires
                    k < count,
                    count == w * h,
            ;
            let col = (k % w) as u32;
            let row = (k / w) as u32;
            assert(col * iw <= 255 * 255) by (nonlinear_arith)
                requires
                    col < w,
                    w <= 255,
                    iw <= 255,
            ;
            assert(row <= k) by (nonlinear_arith)
                requires
                    row == k / w,
                    w > 0,
            ;
            assert(row * ih <= 255 * 255 * 255) by (nonlinear_arith)
                requires
                    row <= 255 * 255,
                    ih <= 255,
            ;
            out.push((col * iw, row * ih, iw, ih));
            k = k + 1;
        }
        out
    }
}

/// A list of tiers that reads without error gives one tier per text, each
/// numbered by its position.
proof fn lemma_tiers_numbered(start: Seq<char>, sqp: Seq<char>, tiers: Seq<Seq<char>>)
    requires
        tiers_spec(start, sqp, tiers) is Ok,
    ensures
        tiers_spec(start, sqp, tiers)->Ok_0.len() == tiers.len(),
        forall|i: int|
            0 <= i < tiers.len() ==> (#[trigger] tiers_spec(start, sqp, tiers)->Ok_0[i]).number
                == i,
    decreases tiers.len(),
{
    if tiers.len() > 0 {
        lemma_tiers_numbered(start, sqp, tiers.drop_last());
    }
}

/// A descriptor with `N` tier texts after its head that reads without error
/// gives exactly `N` tiers, and the tier at position `i` has index `i`.
pub proof fn lemma_parse_numbers_tiers(s: Seq<char>)
    requires
        parse_spec(s) is Ok,
    ensures
        parse_spec(s)->Ok_0.len() == split_on(s, '|').len() - 1,
        forall|i: int|
            0 <= i < parse_spec(s)->Ok_0.len() ==> (#[trigger] parse_spec(s)->Ok_0[i]).number == i,
{
    let parts = split_on(s, '|');
    lemma_split_on_len(s, '|');
    let p = choose|p: int| single_marker(parts[0], p);
    lemma_tiers_numbered(parts[0].take(p), parts[0].skip(p + 14), parts.skip(1));
}

impl Endpoint {
    /// Index of the tier, counted from the coarsest.
    pub fn number(&self) -> (r: usize)
        ensures
            r == self@.number,
    {
        self.number
    }

    /// The URL up to the tier's index.
    pub fn start(&self) -> (r: &str)
        ensures
            r@ == self@.start,
    {
        self.start.as_str()
    }

    /// The `sqp` token of the URLs.
    pub fn sqp(&self) -> (r: &str)
        ensures
            r@ == self@.sqp,
    {
        self.sqp.as_str()
    }

    /// The tier's signature, the `sigh` parameter of its URLs.
    pub fn sigh(&self) -> (r: &str)
        ensures
            r@ == self@.sigh,
    {
        self.sigh.as_str()
    }

    /// Number of tiles in a row of a sheet.
    pub fn width(&self) -> (r: u8)
        ensures
            r == self@.width,
    {
        self.width
    }

    /// Number of rows of tiles in a sheet.
    pub fn height(&self) -> (r: u8)
        ensures
            r == self@.height,
    {
        self.height
    }

    /// Width in pixels of one tile.
    pub fn image_width(&self) -> (r: u8)
        ensures
            r == self@.image_width,
    {
        self.image_width
    }

    /// Height in pixels of one tile.
    pub fn image_height(&self) -> (r: u8)
        ensures
            r == self@.image_height,
    {
        self.image_height
    }
}

} // verus!
