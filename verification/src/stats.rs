//! Size statistics of syntax trees: node counters, the payload size of a variant laid out from
//! its fields, and readable numbers.

use vstd::prelude::*;

use crate::word::{decimal, decimal_digit, digit_char, push_char};

verus! {

/// Counters of one kind of node: how many were seen, and the size of one.
#[derive(Clone, Copy, Debug, PartialEq, Eq, Structural)]
pub struct NodeStats {
    /// The number of nodes seen.
    pub count: usize,
    /// The size in bytes of one node.
    pub size: usize,
}

impl NodeStats {
    /// Counters of a kind of node not seen yet.
    pub fn new() -> (stats: Self)
        ensures
            stats.count == 0,
            stats.size == 0,
    {
        NodeStats { count: 0, size: 0 }
    }

    /// The number of bytes taken by all nodes seen.
    pub fn accum_size(&self) -> (total: usize)
        requires
            self.count * self.size <= usize::MAX,
        ensures
            total == self.count * self.size,
    {
        self.count * self.size
    }
}

/// The size and alignment of a type, in bytes; the alignment is a power of two.
#[derive(Clone, Copy, Debug, PartialEq, Eq, Structural)]
pub struct TypeLayout {
    /// The size.
    pub size: usize,
    /// The alignment.
    pub align: usize,
}

/// The smallest multiple of `align` that is at least `n`.
pub open spec fn round_up(n: nat, align: nat) -> nat {
    if n % align == 0 {
        n
    } else {
        n + (align - n % align) as nat
    }
}

/// Rounding up gives the smallest multiple of the alignment that is not below the number.
pub proof fn lemma_round_up(n: nat, align: nat)
    requires
        align > 0,
    ensures
        round_up(n, align) % align == 0,
        n <= round_up(n, align) < n + align,
{
    vstd::arithmetic::div_mod::lemma_fundamental_div_mod(n as int, align as int);
    vstd::arithmetic::div_mod::lemma_mod_bound(n as int, align as int);
    if n % align != 0 {
        let q = (n / align) as int;
        let r = (n % align) as int;
        vstd::arithmetic::mul::lemma_mul_is_distributive_add(align as int, q, 1);
        assert(round_up(n, align) == align * (q + 1));
        vstd::arithmetic::div_mod::lemma_mod_multiples_basic(q + 1, align as int);
        vstd::arithmetic::mul::lemma_mul_is_commutative(align as int, q + 1);
    }
}

/// The size and alignment of a record whose fields `fields` follow one another, each at the
/// first offset aligned for it, from a record of size and alignment `start`.
pub open spec fn extended(start: (nat, nat), fields: Seq<TypeLayout>) -> (nat, nat)
    decreases fields.len(),
{
    if fields.len() == 0 {
        start
    } else {
        let previous = extended(start, fields.drop_last());
        let field = fields.last();
        (
            round_up(previous.0, field.align as nat) + field.size as nat,
            if previous.1 >= field.align { previous.1 } else { field.align as nat },
        )
    }
}

/// Whether every record built while extending `start` by `fields` has a size that, rounded up to
/// its alignment, fits in `isize`.
pub open spec fn extensions_fit(start: (nat, nat), fields: Seq<TypeLayout>) -> bool {
    forall|k: int|
        0 <= k <= fields.len() ==> {
            let layout = #[trigger] extended(start, fields.subrange(0, k));
            round_up(layout.0, layout.1) <= isize::MAX
        }
}

/// The size of an enum variant's payload: its fields laid out one after the other in a record
/// with the enum's alignment, padded to the record's alignment.
pub fn fields_layout_size(this: TypeLayout, fields: &[TypeLayout]) -> (size: usize)
    requires
        this.align > 0,
        forall|i: int| 0 <= i < fields@.len() ==> (#[trigger] fields@[i]).align > 0,
        extensions_fit((0, this.align as nat), fields@),
    ensures
        size == ({
            let layout = extended((0, this.align as nat), fields@);
            round_up(layout.0, layout.1)
        }),
{
    let ghost start = (0nat, this.align as nat);
    let mut size: usize = 0;
    let mut align: usize = this.align;
    let mut i: usize = 0;
    proof {
        assert(fields@.subrange(0, 0) =~= Seq::<TypeLayout>::empty());
    }
    while i < fields.len()
        invariant
            0 <= i <= fields@.len(),
            this.align > 0,
            align > 0,
            forall|k: int| 0 <= k < fields@.len() ==> (#[trigger] fields@[k]).align > 0,
            extensions_fit(start, fields@),
            start == (0nat, this.align as nat),
            (size as nat, align as nat) == extended(start, fields@.subrange(0, i as int)),
        decreases fields@.len() - i,
    {
        let field = fields[i];
        proof {
            assert(fields@.subrange(0, i + 1).drop_last() =~= fields@.subrange(0, i as int));
            assert(fields@.subrange(0, i + 1).last() == field);
            let next = extended(start, fields@.subrange(0, i + 1));
            assert(round_up(next.0, next.1) <= isize::MAX);
            lemma_round_up(next.0, next.1);
            lemma_round_up(size as nat, field.align as nat);
        }
        let remainder = size % field.align;
        let offset = if remainder == 0 { size } else { size + (field.align - remainder) };
        size = offset + field.size;
        if field.align > align {
            align = field.align;
        }
        i += 1;
    }
    proof {
        assert(fields@.subrange(0, fields@.len() as int) =~= fields@);
        lemma_round_up(size as nat, align as nat);
        assert(round_up(size as nat, align as nat) <= isize::MAX);
    }
    let remainder = size % align;
    if remainder == 0 {
        size
    } else {
        size + (align - remainder)
    }
}

/// The three digits of a number below a thousand, with leading zeros.
pub open spec fn three_digits(group: nat) -> Seq<char> {
    seq![decimal_digit(group / 100), decimal_digit((group / 10) % 10), decimal_digit(group % 10)]
}

/// The decimal representation of `n` with its digits grouped by three from the right and the
/// groups joined by underscores.
pub open spec fn readable(n: nat) -> Seq<char>
    decreases n,
{
    if n < 1000 {
        decimal(n)
    } else {
        readable(n / 1000) + seq!['_'] + three_digits(n % 1000)
    }
}

fn append_readable(text: &mut String, n: usize)
    ensures
        final(text)@ == old(text)@ + readable(n as nat),
    decreases n,
{
    if n < 1000 {
        let ghost before = text@;
        if n >= 100 {
            push_char(text, digit_char(n / 100));
        }
        if n >= 10 {
            push_char(text, digit_char((n / 10) % 10));
        }
        push_char(text, digit_char(n % 10));
        proof {
            let m = n as nat;
            if m >= 100 {
                assert(m / 10 / 10 == m / 100);
                assert(decimal(m / 10 / 10) == seq![decimal_digit(m / 100)]);
                assert(decimal(m / 10) =~= seq![decimal_digit(m / 100), decimal_digit((m / 10) % 10)]);
                assert(decimal(m) =~= seq![decimal_digit(m / 100), decimal_digit((m / 10) % 10), decimal_digit(m % 10)]);
            } else if m >= 10 {
                assert((m / 10) % 10 == m / 10);
                assert(decimal(m / 10) == seq![decimal_digit(m / 10)]);
                assert(decimal(m) =~= seq![decimal_digit((m / 10) % 10), decimal_digit(m % 10)]);
            } else {
                assert(decimal(m) =~= seq![decimal_digit(m % 10)]);
            }
            assert(text@ =~= before + readable(n as nat));
        }
    } else {
        append_readable(text, n / 1000);
        let ghost before = text@;
        let group = n % 1000;
        push_char(text, '_');
        push_char(text, digit_char(group / 100));
        push_char(text, digit_char((group / 10) % 10));
        push_char(text, digit_char(group % 10));
        proof {
            assert(text@ =~= before + seq!['_'] + three_digits(group as nat));
        }
    }
}

/// Formats `val` in decimal with its digits grouped by three and the groups joined by
/// underscores, such as `1_234_567`.
pub fn to_readable_str(val: usize) -> (text: String)
    ensures
        text@ == readable(val as nat),
{
    let mut text = String::new();
    append_readable(&mut text, val);
    proof {
        assert(text@ =~= Seq::<char>::empty() + readable(val as nat));
    }
    text
}

/// The digits of `n`, without grouping.
proof fn lemma_decimal_has_no_separator(n: nat)
    ensures
        !decimal(n).contains('_'),
    decreases n,
{
    if n >= 10 {
        lemma_decimal_has_no_separator(n / 10);
        assert(decimal(n) == decimal(n / 10).push(decimal_digit(n % 10)));
        assert forall|i: int| 0 <= i < decimal(n).len() implies decimal(n)[i] != '_' by {
            if i < decimal(n / 10).len() {
                assert(decimal(n)[i] == decimal(n / 10)[i]);
            }
        }
    }
}

proof fn lemma_decimal_of_thousands(n: nat)
    requires
        n >= 1000,
    ensures
        decimal(n) == decimal(n / 1000) + three_digits(n % 1000),
{
    let q = n / 1000;
    assert(n / 10 / 10 / 10 == q);
    assert((n / 10 / 10) % 10 == (n % 1000) / 100);
    assert((n / 10) % 10 == ((n % 1000) / 10) % 10);
    assert(n % 10 == (n % 1000) % 10);
    assert(n / 10 >= 10 && n / 10 / 10 >= 10);
    assert(decimal(n / 10 / 10) == decimal(q).push(decimal_digit((n % 1000) / 100)));
    assert(decimal(n / 10) == decimal(n / 10 / 10).push(decimal_digit(((n % 1000) / 10) % 10)));
    assert(decimal(n) == decimal(n / 10).push(decimal_digit((n % 1000) % 10)));
    assert(decimal(n) =~= decimal(q) + three_digits(n % 1000));
}

proof fn lemma_filter_without_separator(text: Seq<char>)
    requires
        !text.contains('_'),
    ensures
        text.filter(|c: char| c != '_') == text,
    decreases text.len(),
{
    reveal(Seq::filter);
    if text.len() > 0 {
        assert(!text.drop_last().contains('_')) by {
            if text.drop_last().contains('_') {
                let k = choose|k: int| 0 <= k < text.drop_last().len() && text.drop_last()[k] == '_';
                assert(text[k] == '_');
            }
        }
        lemma_filter_without_separator(text.drop_last());
        assert(text[text.len() - 1] != '_');
        assert(text.drop_last().push(text.last()) =~= text);
    }
}

/// A readable number is the decimal representation of the number with underscores between
/// groups of three digits: removing the underscores gives the decimal digits back.
pub proof fn lemma_readable_is_grouped_decimal(n: nat)
    ensures
        readable(n).filter(|c: char| c != '_') == decimal(n),
    decreases n,
{
    let keep = |c: char| c != '_';
    if n < 1000 {
        lemma_decimal_has_no_separator(n);
        lemma_filter_without_separator(decimal(n));
    } else {
        lemma_readable_is_grouped_decimal(n / 1000);
        lemma_decimal_of_thousands(n);
        let head = readable(n / 1000);
        let tail = three_digits(n % 1000);
        Seq::filter_distributes_over_add(head + seq!['_'], tail, keep);
        Seq::filter_distributes_over_add(head, seq!['_'], keep);
        assert(seq!['_'].filter(keep) =~= Seq::<char>::empty()) by {
            reveal(Seq::filter);
            let empty = Seq::<char>::empty();
            assert(seq!['_'].drop_last() =~= empty);
            assert(empty.filter(keep) =~= empty);
            assert(!keep(seq!['_'].last()));
        }
        assert(!tail.contains('_')) by {
            if tail.contains('_') {
                let k = choose|k: int| 0 <= k < tail.len() && tail[k] == '_';
                assert(k == 0 || k == 1 || k == 2);
            }
        }
        lemma_filter_without_separator(tail);
        assert(readable(n).filter(keep) =~= decimal(n / 1000) + tail);
    }
}


/// The number that a sequence of decimal digits denotes, as parsing it reads it.
pub open spec fn digits_value(text: Seq<char>) -> int
    decreases text.len(),
{
    if text.len() == 0 {
        0
    } else {
        digits_value(text.drop_last()) * 10 + (text.last() as int - 48)
    }
}

/// Whether `c` is a decimal digit.
pub open spec fn is_decimal_digit(c: char) -> bool {
    '0' <= c && c <= '9'
}

/// The groups of a readable number: the leading digits, then the groups of three digits.
pub open spec fn readable_groups(n: nat) -> Seq<Seq<char>>
    decreases n,
{
    if n < 1000 {
        seq![decimal(n)]
    } else {
        readable_groups(n / 1000).push(three_digits(n % 1000))
    }
}

/// Groups of text joined by underscores.
pub open spec fn joined(groups: Seq<Seq<char>>) -> Seq<char>
    decreases groups.len(),
{
    if groups.len() <= 1 {
        if groups.len() == 1 {
            groups[0]
        } else {
            Seq::empty()
        }
    } else {
        joined(groups.drop_last()) + seq!['_'] + groups.last()
    }
}

/// The decimal representation of `n` is made of digits, has no leading zero unless it is `0`,
/// and denotes `n`.
pub proof fn lemma_decimal_parses_back(n: nat)
    ensures
        digits_value(decimal(n)) == n,
        forall|i: int| 0 <= i < decimal(n).len() ==> is_decimal_digit(#[trigger] decimal(n)[i]),
        n > 0 ==> decimal(n)[0] != '0',
        decimal(n).len() >= 1,
        n < 10 ==> decimal(n).len() == 1,
        10 <= n < 100 ==> decimal(n).len() == 2,
        100 <= n < 1000 ==> decimal(n).len() == 3,
    decreases n,
{
    if n >= 10 {
        lemma_decimal_parses_back(n / 10);
        let prefix = decimal(n / 10);
        assert(decimal(n) == prefix.push(decimal_digit(n % 10)));
        assert(decimal(n).drop_last() =~= prefix);
        assert(decimal_digit(n % 10) as int == 48 + n % 10);
        assert(n == (n / 10) * 10 + n % 10);
        assert(decimal(n).last() == decimal_digit(n % 10));
        assert(digits_value(decimal(n)) == digits_value(prefix) * 10 + (decimal_digit(n % 10) as int - 48));
        assert(digits_value(decimal(n)) == (n / 10) * 10 + n % 10);
        assert forall|i: int| 0 <= i < decimal(n).len() implies is_decimal_digit(#[trigger] decimal(n)[i]) by {
            if i < prefix.len() {
                assert(decimal(n)[i] == prefix[i]);
            }
        }
        assert(decimal(n)[0] == prefix[0]);
    } else {
        assert(decimal_digit(n) as int == 48 + n);
        assert(decimal(n).drop_last() =~= Seq::<char>::empty());
        assert(digits_value(decimal(n)) == digits_value(Seq::<char>::empty()) * 10 + (decimal_digit(n) as int - 48));
    }
}

/// A readable number parses back to the number once its underscores are removed; it splits at
/// the underscores into a leading group of one to three digits with no leading zero (unless the
/// number is zero) and further groups of exactly three digits.
pub proof fn lemma_readable_parses_back(n: nat)
    ensures
        digits_value(readable(n).filter(|c: char| c != '_')) == n,
        readable(n) == joined(readable_groups(n)),
        1 <= readable_groups(n)[0].len() <= 3,
        n > 0 ==> readable_groups(n)[0][0] != '0',
        forall|g: int| 1 <= g < readable_groups(n).len() ==> (#[trigger] readable_groups(n)[g]).len() == 3,
        forall|g: int, i: int|
            0 <= g < readable_groups(n).len() && 0 <= i < readable_groups(n)[g].len() ==> is_decimal_digit(
                #[trigger] readable_groups(n)[g][i],
            ),
    decreases n,
{
    lemma_readable_is_grouped_decimal(n);
    lemma_decimal_parses_back(n);
    if n >= 1000 {
        lemma_readable_parses_back(n / 1000);
        let prior = readable_groups(n / 1000);
        let groups = readable_groups(n);
        let tail = three_digits(n % 1000);
        assert(groups.drop_last() =~= prior);
        assert(prior.len() >= 1);
        assert(groups[0] == prior[0]);
        assert forall|g: int, i: int|
            0 <= g < groups.len() && 0 <= i < groups[g].len() implies is_decimal_digit(#[trigger] groups[g][i]) by {
            if g < prior.len() {
                assert(groups[g] == prior[g]);
            } else {
                assert(groups[g] == tail);
                let m = n % 1000;
                assert(m / 100 < 10 && (m / 10) % 10 < 10 && m % 10 < 10);
                assert(decimal_digit(m / 100) as int == 48 + m / 100);
                assert(decimal_digit((m / 10) % 10) as int == 48 + (m / 10) % 10);
                assert(decimal_digit(m % 10) as int == 48 + m % 10);
            }
        }
        assert forall|g: int| 1 <= g < groups.len() implies (#[trigger] groups[g]).len() == 3 by {
            if g < prior.len() {
                assert(groups[g] == prior[g]);
            }
        }
    } else {
        assert(readable_groups(n) =~= seq![decimal(n)]);
    }
}

} // verus!
