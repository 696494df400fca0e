//! The alternate display of a bit field, drawn with box-drawing characters:
//! the raw bits, a line of brackets under each field, then one line per
//! field whose leader runs from the field's bracket to its name and value.
use vstd::prelude::*;

use vstd::arithmetic::power2::pow2;
use vstd::string::StrSliceExecFns;

use crate::bitfield::{binary_digits, binary_text, push_str, push_string};

verus! {

/// Where a field sits in a bit field, and its name. `msb` is the index one
/// above the field's highest bit.
#[derive(Clone, Copy, Debug)]
pub struct FieldLayout {
    pub name: &'static str,
    pub msb: u32,
    pub bits: u32,
}

/// A field whose name starts with an underscore is reserved: it takes up
/// room in the display but gets no line of its own.
pub open spec fn is_reserved(name: Seq<char>) -> bool {
    name.len() > 0 && name[0] == '_'
}

/// `n` copies of `c`.
pub open spec fn repeat(c: char, n: nat) -> Seq<char>
    decreases n,
{
    if n == 0 {
        seq![]
    } else {
        repeat(c, (n - 1) as nat).push(c)
    }
}

/// The fields, most significant first, each at least one bit wide, within
/// the bit field's `total` bits, and each lying wholly below the ones
/// before it.
pub open spec fn layout_valid(fields: Seq<FieldLayout>, total: nat) -> bool {
    &&& forall|i: int|
        0 <= i < fields.len() ==> 1 <= #[trigger] fields[i].bits <= fields[i].msb && fields[i].msb
            <= total
    &&& forall|i: int, j: int|
        0 <= i < j < fields.len() ==> #[trigger] fields[j].msb + #[trigger] fields[i].bits
            <= fields[i].msb
}

/// The column at which drawing stands before field `i`: the top of the
/// bit field, or the bottom of the field before.
pub open spec fn start_of(fields: Seq<FieldLayout>, total: nat, i: int) -> int {
    if i <= 0 {
        total as int
    } else {
        fields[i - 1].msb - fields[i - 1].bits
    }
}

/// The blank columns between the field before `i` and field `i`.
pub open spec fn gap(fields: Seq<FieldLayout>, total: nat, i: int) -> Seq<char> {
    repeat(' ', (start_of(fields, total, i) - fields[i].msb) as nat)
}

/// The bracket drawn under a field: blanks for a reserved field, a bar for
/// a single bit, and otherwise a bracket whose stem hangs from its second
/// column.
pub open spec fn bracket(f: FieldLayout) -> Seq<char> {
    if is_reserved(f.name@) {
        repeat(' ', f.bits as nat)
    } else if f.bits == 1 {
        seq!['│']
    } else if f.bits == 2 {
        seq!['└', '┤']
    } else {
        seq!['└', '┬'] + repeat('─', (f.bits - 3) as nat) + seq!['┘']
    }
}

/// What is drawn under a field on the line of a field further down: blanks
/// for a reserved field, and otherwise the field's stem.
pub open spec fn stem(f: FieldLayout) -> Seq<char> {
    if is_reserved(f.name@) {
        repeat(' ', f.bits as nat)
    } else if f.bits == 1 {
        seq!['│']
    } else {
        seq![' ', '│'] + repeat(' ', (f.bits - 2) as nat)
    }
}

/// The brackets of the first `n` fields, each after its gap.
pub open spec fn brackets(fields: Seq<FieldLayout>, total: nat, n: int) -> Seq<char>
    decreases n,
{
    if n <= 0 {
        seq![]
    } else {
        brackets(fields, total, n - 1) + gap(fields, total, n - 1) + bracket(fields[n - 1])
    }
}

/// The stems of the first `n` fields, each after its gap.
pub open spec fn stems(fields: Seq<FieldLayout>, total: nat, n: int) -> Seq<char>
    decreases n,
{
    if n <= 0 {
        seq![]
    } else {
        stems(fields, total, n - 1) + gap(fields, total, n - 1) + stem(fields[n - 1])
    }
}

/// The length of the longest name among the first `n` fields that are not
/// reserved.
pub open spec fn max_name_len(fields: Seq<FieldLayout>, n: int) -> nat
    decreases n,
{
    if n <= 0 {
        0
    } else {
        let m = max_name_len(fields, n - 1);
        let f = fields[n - 1];
        if is_reserved(f.name@) || f.name@.len() <= m {
            m
        } else {
            f.name@.len()
        }
    }
}

/// The column at which every leader stops: that of the second column of the
/// last field, or 0 when the last field is reserved.
pub open spec fn leader_end(fields: Seq<FieldLayout>) -> int {
    if fields.len() == 0 {
        0
    } else {
        let f = fields.last();
        if is_reserved(f.name@) {
            0
        } else {
            f.msb - (f.bits - 1)
        }
    }
}

/// The line of field `j` holding `value`, whose value reads `text`: the
/// stems of the fields above it, a corner under the field, a leader, then
/// the field's name, its value and its bits. A reserved field has none.
pub open spec fn unicode_line(
    fields: Seq<FieldLayout>,
    total: nat,
    j: int,
    value: nat,
    text: Seq<char>,
) -> Seq<char> {
    let f = fields[j];
    if is_reserved(f.name@) {
        seq![]
    } else {
        let corner = if f.bits == 1 {
            seq!['└']
        } else {
            seq![' ', '└']
        };
        let col = f.msb - if f.bits == 1 {
            1int
        } else {
            2int
        };
        let len = col + (max_name_len(fields, fields.len() as int) - f.name@.len());
        let leader = if len > leader_end(fields) {
            len - leader_end(fields)
        } else {
            0
        };
        stems(fields, total, j) + gap(fields, total, j) + corner + repeat('─', leader as nat)
            + seq![' '] + f.name@ + seq![':', ' '] + text + seq![' ', '('] + binary_digits(
            value,
            f.bits as nat,
        ) + seq![')', '\n']
    }
}

/// The lines of fields `hi - 1` down to `lo`.
pub open spec fn unicode_lines(
    fields: Seq<FieldLayout>,
    total: nat,
    values: Seq<usize>,
    texts: Seq<Seq<char>>,
    hi: int,
    lo: int,
) -> Seq<char>
    decreases hi - lo,
{
    if lo >= hi {
        seq![]
    } else {
        unicode_lines(fields, total, values, texts, hi, lo + 1) + unicode_line(
            fields,
            total,
            lo,
            values[lo] as nat,
            texts[lo],
        )
    }
}

/// The whole display of a bit field of `total` bits holding `word`: the
/// raw bits, the line of brackets, then the fields' lines from the least
/// significant field up.
pub open spec fn unicode_display_text(
    word: nat,
    total: nat,
    fields: Seq<FieldLayout>,
    values: Seq<usize>,
    texts: Seq<Seq<char>>,
) -> Seq<char> {
    binary_digits(word, total) + seq!['\n'] + brackets(fields, total, fields.len() as int) + seq![
        '\n',
    ] + unicode_lines(fields, total, values, texts, fields.len() as int, 0)
}

/// The characters of each string.
pub open spec fn texts_view(texts: Seq<String>) -> Seq<Seq<char>> {
    texts.map_values(|t: String| t@)
}

/// Every name that is not reserved is no longer than the longest.
proof fn lemma_max_name_len(fields: Seq<FieldLayout>, n: int, j: int)
    requires
        0 <= j < n,
        !is_reserved(fields[j].name@),
    ensures
        fields[j].name@.len() <= max_name_len(fields, n),
    decreases n,
{
    if j < n - 1 {
        lemma_max_name_len(fields, n - 1, j);
    }
}

/// The longest name is no longer than a bound on every name.
pub(crate) proof fn lemma_max_name_len_bound(fields: Seq<FieldLayout>, n: int, bound: nat)
    requires
        n <= fields.len(),
        forall|i: int| 0 <= i < n ==> #[trigger] fields[i].name@.len() <= bound,
    ensures
        max_name_len(fields, n) <= bound,
    decreases n,
{
    if n > 0 {
        lemma_max_name_len_bound(fields, n - 1, bound);
    }
}

/// Appends `n` copies of `c`, written out in `piece`.
fn push_repeat(s: String, Ghost(c): Ghost<char>, piece: &str, n: usize) -> (r: String)
    requires
        piece@ == seq![c],
    ensures
        r@ == s@ + repeat(c, n as nat),
{
    let mut s = s;
    let ghost s0 = s@;
    let mut i: usize = 0;
    while i < n
        invariant
            i <= n,
            piece@ == seq![c],
            s@ == s0 + repeat(c, i as nat),
        decreases n - i,
    {
        s = push_str(s, piece);
        proof {
            assert(s0 + repeat(c, i as nat) + seq![c] =~= s0 + repeat(c, (i + 1) as nat));
        }
        i = i + 1;
    }
    s
}

/// Appends `n` blanks.
fn push_blanks(s: String, n: u32) -> (r: String)
    ensures
        r@ == s@ + repeat(' ', n as nat),
{
    proof {
        reveal_strlit(" ");
        assert(" "@ =~= seq![' ']);
    }
    push_repeat(s, Ghost(' '), " ", n as usize)
}

/// Whether `name` starts with an underscore.
fn name_is_reserved(name: &str) -> (r: bool)
    ensures
        r == is_reserved(name@),
{
    name.unicode_len() > 0 && name.get_char(0) == '_'
}

/// Appends the bracket of `f`.
fn push_bracket(s: String, f: FieldLayout) -> (r: String)
    requires
        1 <= f.bits,
    ensures
        r@ == s@ + bracket(f),
{
    proof {
        reveal_strlit("│");
        reveal_strlit("└┤");
        reveal_strlit("└┬");
        reveal_strlit("─");
        reveal_strlit("┘");
        assert("─"@ =~= seq!['─']);
    }
    if name_is_reserved(f.name) {
        push_blanks(s, f.bits)
    } else if f.bits == 1 {
        push_str(s, "│")
    } else if f.bits == 2 {
        push_str(s, "└┤")
    } else {
        let ghost g0 = s@;
        let s1 = push_str(s, "└┬");
        let s2 = push_repeat(s1, Ghost('─'), "─", (f.bits - 3) as usize);
        let r = push_str(s2, "┘");
        proof {
            assert(r@ =~= g0 + (seq!['└', '┬'] + repeat('─', (f.bits - 3) as nat) + seq!['┘']));
        }
        r
    }
}

/// Appends the stem of `f`.
fn push_stem(s: String, f: FieldLayout) -> (r: String)
    requires
        1 <= f.bits,
    ensures
        r@ == s@ + stem(f),
{
    proof {
        reveal_strlit("│");
        reveal_strlit(" │");
    }
    if name_is_reserved(f.name) {
        push_blanks(s, f.bits)
    } else if f.bits == 1 {
        push_str(s, "│")
    } else {
        let s0 = s;
        let ghost g0 = s0@;
        let s1 = push_str(s0, " │");
        let r = push_blanks(s1, f.bits - 2);
        proof {
            assert(r@ =~= g0 + (seq![' ', '│'] + repeat(' ', (f.bits - 2) as nat)));
        }
        r
    }
}

/// Appends the stems of the fields above field `j`, then the gap before it.
fn push_stems(s: String, fields: &Vec<FieldLayout>, total: u32, j: usize) -> (r: String)
    requires
        layout_valid(fields@, total as nat),
        j < fields.len(),
    ensures
        r@ == s@ + stems(fields@, total as nat, j as int) + gap(fields@, total as nat, j as int),
{
    let mut s = s;
    let ghost s0 = s@;
    let mut cur: u32 = total;
    let mut k: usize = 0;
    while k < j
        invariant
            layout_valid(fields@, total as nat),
            k <= j < fields.len(),
            cur == start_of(fields@, total as nat, k as int),
            s@ == s0 + stems(fields@, total as nat, k as int),
        decreases j - k,
    {
        let f = fields[k];
        proof {
            assert(fields@[k as int] == f);
            assert(1 <= fields@[k as int].bits);
            if k > 0 {
                assert(fields@[k as int].msb + fields@[k - 1].bits <= fields@[k - 1].msb);
            }
        }
        let ghost before = s@;
        s = push_blanks(s, cur - f.msb);
        s = push_stem(s, f);
        proof {
            assert(s@ =~= s0 + stems(fields@, total as nat, (k + 1) as int));
        }
        cur = f.msb - f.bits;
        k = k + 1;
    }
    let f = fields[j];
    proof {
        assert(fields@[j as int] == f);
        assert(1 <= fields@[j as int].bits);
        if j > 0 {
            assert(fields@[j as int].msb + fields@[j - 1].bits <= fields@[j - 1].msb);
        }
    }
    let r = push_blanks(s, cur - f.msb);
    proof {
        assert(r@ =~= s0 + stems(fields@, total as nat, j as int) + gap(
            fields@,
            total as nat,
            j as int,
        ));
    }
    r
}

/// Appends the name of a field, its value's text and its `bits` bits
/// `value`, as they end the field's line.
fn push_name_value(s: String, name: &str, text: &String, value: usize, bits: u32) -> (r: String)
    requires
        1 <= bits,
        (value as int) < pow2(bits as nat),
    ensures
        r@ == s@ + (seq![' '] + name@ + seq![':', ' '] + text@ + seq![' ', '('] + binary_digits(
            value as nat,
            bits as nat,
        ) + seq![')', '\n']),
{
    proof {
        reveal_strlit(" ");
        reveal_strlit(": ");
        reveal_strlit(" (");
        reveal_strlit(")\n");
    }
    let ghost g0 = s@;
    let s1 = push_str(s, " ");
    let s2 = push_str(s1, name);
    let s3 = push_str(s2, ": ");
    let s4 = push_str(s3, text.as_str());
    let s5 = push_str(s4, " (");
    let s6 = push_string(s5, binary_text(value, bits as usize));
    let r = push_str(s6, ")\n");
    proof {
        assert(r@ =~= g0 + (seq![' '] + name@ + seq![':', ' '] + text@ + seq![' ', '(']
            + binary_digits(value as nat, bits as nat) + seq![')', '\n']));
    }
    r
}

/// Appends the line of field `j` (see [`unicode_line`]); `max_len` and
/// `end` are the longest name and the column at which leaders stop.
#[verifier::spinoff_prover]
fn push_unicode_line(
    s: String,
    fields: &Vec<FieldLayout>,
    total: u32,
    j: usize,
    max_len: usize,
    end: u32,
    value: usize,
    text: &String,
) -> (r: String)
    requires
        layout_valid(fields@, total as nat),
        j < fields.len(),
        !is_reserved(fields@[j as int].name@),
        max_len == max_name_len(fields@, fields.len() as int),
        end == leader_end(fields@),
        (value as int) < pow2(fields@[j as int].bits as nat),
        total + max_len <= usize::MAX,
    ensures
        r@ == s@ + unicode_line(fields@, total as nat, j as int, value as nat, text@),
{
    let ghost g0 = s@;
    let f = fields[j];
    proof {
        assert(fields@[j as int] == f);
        assert(1 <= f.bits <= f.msb <= total);
        lemma_max_name_len(fields@, fields.len() as int, j as int);
        reveal_strlit("└");
        reveal_strlit(" └");
        reveal_strlit("─");
        assert("─"@ =~= seq!['─']);
    }
    let s1 = push_stems(s, fields, total, j);
    let s2;
    let col: u32;
    if f.bits == 1 {
        s2 = push_str(s1, "└");
        col = f.msb - 1;
    } else {
        s2 = push_str(s1, " └");
        col = f.msb - 2;
    }
    let ghost corner = if f.bits == 1 {
        seq!['└']
    } else {
        seq![' ', '└']
    };
    assert(s2@ == s1@ + corner);
    let len: usize = col as usize + (max_len - f.name.unicode_len());
    let ghost leader: nat = if len > end {
        (len - end) as nat
    } else {
        0
    };
    let s3 = if len > end as usize {
        push_repeat(s2, Ghost('─'), "─", len - end as usize)
    } else {
        s2
    };
    assert(s3@ == s2@ + repeat('─', leader));
    let r = push_name_value(s3, f.name, text, value, f.bits);
    proof {
        let tail = seq![' '] + f.name@ + seq![':', ' '] + text@ + seq![' ', '('] + binary_digits(
            value as nat,
            f.bits as nat,
        ) + seq![')', '\n'];
        assert(r@ == g0 + stems(fields@, total as nat, j as int) + gap(fields@, total as nat, j as int)
            + corner + repeat('─', leader) + tail);
        assert(unicode_line(fields@, total as nat, j as int, value as nat, text@)
            == stems(fields@, total as nat, j as int) + gap(fields@, total as nat, j as int)
            + corner + repeat('─', leader) + tail);
        assert(r@ =~= g0 + unicode_line(fields@, total as nat, j as int, value as nat, text@));
    }
    r
}

/// Returns the alternate display of a bit field of `total` bits holding
/// `word` (see [`unicode_display_text`]); `fields` lists the fields most
/// significant first, `values` the bits of each and `texts` how each
/// value reads.
pub fn unicode_display(
    word: usize,
    total: u32,
    fields: &Vec<FieldLayout>,
    values: &Vec<usize>,
    texts: &Vec<String>,
) -> (r: String)
    requires
        1 <= total,
        (word as int) < pow2(total as nat),
        layout_valid(fields@, total as nat),
        values.len() == fields.len(),
        texts.len() == fields.len(),
        forall|i: int| 0 <= i < fields.len() ==> (#[trigger] values@[i] as int) < pow2(fields@[i].bits as nat),
        total + max_name_len(fields@, fields.len() as int) <= usize::MAX,
    ensures
        r@ == unicode_display_text(word as nat, total as nat, fields@, values@, texts_view(texts@)),
{
    proof {
        reveal_strlit("\n");
    }
    let n = fields.len();
    let s = push_string(String::new(), binary_text(word, total as usize));
    let s = push_str(s, "\n");
    let ghost g1 = s@;
    let mut s = s;
    let mut cur: u32 = total;
    let mut max_len: usize = 0;
    let mut end: u32 = 0;
    let mut i: usize = 0;
    while i < n
        invariant
            layout_valid(fields@, total as nat),
            n == fields.len(),
            i <= n,
            cur == start_of(fields@, total as nat, i as int),
            s@ == g1 + brackets(fields@, total as nat, i as int),
            max_len == max_name_len(fields@, i as int),
            i < n ==> end == 0,
            i == n ==> end == leader_end(fields@),
        decreases n - i,
    {
        let f = fields[i];
        proof {
            assert(fields@[i as int] == f);
            assert(1 <= fields@[i as int].bits);
            if i > 0 {
                assert(fields@[i as int].msb + fields@[i - 1].bits <= fields@[i - 1].msb);
            }
        }
        s = push_blanks(s, cur - f.msb);
        s = push_bracket(s, f);
        proof {
            assert(s@ =~= g1 + brackets(fields@, total as nat, (i + 1) as int));
        }
        cur = f.msb;
        if !name_is_reserved(f.name) {
            if i + 1 == n {
                end = cur - (f.bits - 1);
            }
            let len = f.name.unicode_len();
            if len > max_len {
                max_len = len;
            }
        }
        cur = cur - f.bits;
        i = i + 1;
        proof {
            assert(fields@.last() == fields@[n - 1]);
        }
    }
    let s = push_str(s, "\n");
    let ghost g2 = s@;
    let ghost tv = texts_view(texts@);
    let mut s = s;
    let mut j: usize = n;
    while j > 0
        invariant
            layout_valid(fields@, total as nat),
            n == fields.len() == values.len() == texts.len(),
            j <= n,
            max_len == max_name_len(fields@, n as int),
            end == leader_end(fields@),
            total + max_len <= usize::MAX,
            tv == texts_view(texts@),
            forall|i: int| 0 <= i < n ==> (#[trigger] values@[i] as int) < pow2(fields@[i].bits as nat),
            s@ == g2 + unicode_lines(fields@, total as nat, values@, tv, n as int, j as int),
        decreases j,
    {
        j = j - 1;
        let f = fields[j];
        proof {
            assert(fields@[j as int] == f);
            assert(tv[j as int] == texts@[j as int]@);
        }
        if !name_is_reserved(f.name) {
            s = push_unicode_line(s, fields, total, j, max_len, end, values[j], &texts[j]);
        }
        proof {
            assert(s@ =~= g2 + unicode_lines(fields@, total as nat, values@, tv, n as int, j as int));
        }
    }
    s
}

} // verus!
