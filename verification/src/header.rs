//! Values of headers, as far as the handshake reads into them: names that are compared without
//! regard to case, and lists of names with commas between them.

use vstd::prelude::*;
use vstd::slice::slice_subrange;

verus! {

/// A letter in lower case, and any other byte as it is.
pub open spec fn spec_lower(b: u8) -> u8 {
    if 65 <= b <= 90 {
        (b + 32) as u8
    } else {
        b
    }
}

/// Whether two names are the same but for the case of their letters.
pub open spec fn spec_same_name(a: Seq<u8>, b: Seq<u8>) -> bool {
    a.len() == b.len() && forall|i: int| 0 <= i < a.len() ==> spec_lower(a[i]) == spec_lower(b[i])
}

/// Whether a byte is a space or a tab.
pub open spec fn spec_is_blank(b: u8) -> bool {
    b == 32 || b == 9
}

/// A text without the blanks at its beginning.
pub open spec fn spec_trim_start(s: Seq<u8>) -> Seq<u8>
    decreases s.len(),
{
    if s.len() > 0 && spec_is_blank(s[0]) {
        spec_trim_start(s.drop_first())
    } else {
        s
    }
}

/// A text without the blanks at its end.
pub open spec fn spec_trim_end(s: Seq<u8>) -> Seq<u8>
    decreases s.len(),
{
    if s.len() > 0 && spec_is_blank(s.last()) {
        spec_trim_end(s.drop_last())
    } else {
        s
    }
}

/// A text without the blanks around it.
pub open spec fn spec_trim(s: Seq<u8>) -> Seq<u8> {
    spec_trim_end(spec_trim_start(s))
}

/// Where the first item of a list ends: at its first comma, or at its end.
pub open spec fn spec_first_item_len(list: Seq<u8>) -> int
    decreases list.len(),
{
    if list.len() == 0 || list[0] == 44 {
        0
    } else {
        1 + spec_first_item_len(list.drop_first())
    }
}

/// Whether one of the items of a list, which stand between its commas, is a name, without
/// regard to the case of letters and to blanks around the item.
pub open spec fn spec_holds_name(list: Seq<u8>, name: Seq<u8>) -> bool
    decreases list.len(),
{
    let cut = spec_first_item_len(list);
    if spec_same_name(spec_trim(list.take(cut)), name) {
        true
    } else if 0 <= cut < list.len() {
        spec_holds_name(list.skip(cut + 1), name)
    } else {
        false
    }
}

pub fn lower(b: u8) -> (r: u8)
    ensures
        r == spec_lower(b),
{
    if 65 <= b && b <= 90 {
        b + 32
    } else {
        b
    }
}

/// Whether two names are the same but for the case of their letters.
pub fn same_name(a: &[u8], b: &[u8]) -> (r: bool)
    ensures
        r == spec_same_name(a@, b@),
{
    if a.len() != b.len() {
        return false;
    }
    let n: usize = a.len();
    let mut i: usize = 0;
    while i < n
        invariant
            i <= n,
            n == a@.len(),
            n == b@.len(),
            forall|j: int| 0 <= j < i ==> spec_lower(a@[j]) == spec_lower(b@[j]),
        decreases n - i,
    {
        if lower(a[i]) != lower(b[i]) {
            return false;
        }
        i = i + 1;
    }
    true
}

/// The first item of a list is no longer than the list, holds no comma, and ends at a comma
/// or at the end of the list.
pub proof fn lemma_first_item(list: Seq<u8>)
    ensures
        0 <= spec_first_item_len(list) <= list.len(),
        forall|j: int| 0 <= j < spec_first_item_len(list) ==> list[j] != 44,
        spec_first_item_len(list) < list.len() ==> list[spec_first_item_len(list)] == 44,
    decreases list.len(),
{
    if list.len() == 0 || list[0] == 44 {
    } else {
        let rest = list.drop_first();
        lemma_first_item(rest);
        assert forall|j: int| 0 <= j < spec_first_item_len(list) implies list[j] != 44 by {
            if j > 0 {
                assert(rest[j - 1] == list[j]);
            }
        }
        if spec_first_item_len(list) < list.len() {
            assert(rest[spec_first_item_len(rest)] == list[spec_first_item_len(list)]);
        }
    }
}

/// The first item ends at the first comma: where no byte before a place is a comma, and the
/// place holds a comma or is the end of the list, the first item ends there.
pub proof fn lemma_first_item_ends_at(list: Seq<u8>, end: int)
    requires
        0 <= end <= list.len(),
        forall|j: int| 0 <= j < end ==> list[j] != 44,
        end < list.len() ==> list[end] == 44,
    ensures
        spec_first_item_len(list) == end,
    decreases list.len(),
{
    if end == 0 {
    } else {
        let rest = list.drop_first();
        assert forall|j: int| 0 <= j < end - 1 implies rest[j] != 44 by {
            assert(rest[j] == list[j + 1]);
        }
        if end - 1 < rest.len() {
            assert(rest[end - 1] == list[end]);
        }
        assert(list[0] != 44);
        lemma_first_item_ends_at(rest, end - 1);
    }
}

/// A text without the blanks around it, as a part of the text.
pub fn trim(s: &[u8]) -> (r: &[u8])
    ensures
        r@ == spec_trim(s@),
{
    let n: usize = s.len();
    let mut a: usize = 0;
    assert(s@.skip(0) =~= s@);
    while a < n && (s[a] == 32 || s[a] == 9)
        invariant
            a <= n,
            n == s@.len(),
            spec_trim_start(s@) == spec_trim_start(s@.skip(a as int)),
        decreases n - a,
    {
        assert(s@.skip(a as int).drop_first() =~= s@.skip(a + 1));
        a = a + 1;
    }
    assert(spec_trim_start(s@) == s@.skip(a as int));
    let ghost started = s@.skip(a as int);
    let mut b: usize = n;
    assert(s@.subrange(a as int, n as int) =~= started);
    while b > a && (s[b - 1] == 32 || s[b - 1] == 9)
        invariant
            a <= b <= n,
            n == s@.len(),
            started == s@.skip(a as int),
            spec_trim_end(started) == spec_trim_end(s@.subrange(a as int, b as int)),
        decreases b - a,
    {
        assert(s@.subrange(a as int, b as int).drop_last() =~= s@.subrange(a as int, b - 1));
        b = b - 1;
    }
    slice_subrange(s, a, b)
}

/// Whether one of the items of a list is a name.
pub fn holds_name(list: &[u8], name: &[u8]) -> (r: bool)
    ensures
        r == spec_holds_name(list@, name@),
{
    let n: usize = list.len();
    let mut start: usize = 0;
    assert(list@.skip(0) =~= list@);
    loop
        invariant
            start <= n,
            n == list@.len(),
            spec_holds_name(list@, name@) == spec_holds_name(list@.skip(start as int), name@),
        decreases n - start,
    {
        let ghost rest = list@.skip(start as int);
        let mut end: usize = start;
        while end < n && list[end] != 44
            invariant
                start <= end <= n,
                n == list@.len(),
                forall|j: int| start <= j < end ==> list@[j] != 44,
            decreases n - end,
        {
            end = end + 1;
        }
        proof {
            assert forall|j: int| 0 <= j < end - start implies rest[j] != 44 by {
                assert(rest[j] == list@[start + j]);
            }
            lemma_first_item_ends_at(rest, end - start);
            assert(rest.take(end - start) =~= list@.subrange(start as int, end as int));
        }
        let item = trim(slice_subrange(list, start, end));
        if same_name(item, name) {
            return true;
        }
        if end >= n {
            return false;
        }
        assert(rest.skip(end - start + 1) =~= list@.skip(end + 1));
        start = end + 1;
    }
}

/// The items of a list: the texts between its commas, each without the blanks around it. A
/// list without a comma has one item, which may be empty.
pub open spec fn spec_items(list: Seq<u8>) -> Seq<Seq<u8>>
    decreases list.len(),
{
    let cut = spec_first_item_len(list);
    let first = seq![spec_trim(list.take(cut))];
    if 0 <= cut < list.len() {
        first + spec_items(list.skip(cut + 1))
    } else {
        first
    }
}

/// The texts that a list of byte strings holds.
pub open spec fn spec_texts(list: Seq<Vec<u8>>) -> Seq<Seq<u8>> {
    Seq::new(list.len(), |i: int| list[i]@)
}

/// A list holds a name if and only if one of its items is that name.
pub proof fn lemma_holds_name_is_an_item(list: Seq<u8>, name: Seq<u8>)
    ensures
        spec_holds_name(list, name) <==> exists|i: int|
            0 <= i < spec_items(list).len() && spec_same_name(#[trigger] spec_items(list)[i], name),
    decreases list.len(),
{
    let cut = spec_first_item_len(list);
    let items = spec_items(list);
    lemma_first_item(list);
    assert(items[0] == spec_trim(list.take(cut)));
    if cut < list.len() {
        let rest = list.skip(cut + 1);
        let later = spec_items(rest);
        lemma_holds_name_is_an_item(rest, name);
        assert forall|i: int| 0 <= i < later.len() implies #[trigger] later[i] == items[i + 1] by {}
        if spec_holds_name(list, name) {
            if spec_same_name(items[0], name) {
            } else {
                let i = choose|i: int| 0 <= i < later.len() && spec_same_name(#[trigger] later[i], name);
                assert(spec_same_name(items[i + 1], name));
            }
        }
        if exists|i: int| 0 <= i < items.len() && spec_same_name(#[trigger] items[i], name) {
            let i = choose|i: int| 0 <= i < items.len() && spec_same_name(#[trigger] items[i], name);
            if i > 0 {
                assert(spec_same_name(later[i - 1], name));
            }
        }
    } else {
        if exists|i: int| 0 <= i < items.len() && spec_same_name(#[trigger] items[i], name) {
            let i = choose|i: int| 0 <= i < items.len() && spec_same_name(#[trigger] items[i], name);
            assert(i == 0);
        }
    }
}

/// The items of a list, in order.
pub fn items(list: &[u8]) -> (r: Vec<Vec<u8>>)
    ensures
        spec_texts(r@) == spec_items(list@),
{
    let n: usize = list.len();
    let mut out: Vec<Vec<u8>> = Vec::new();
    let mut start: usize = 0;
    assert(list@.skip(0) =~= list@);
    assert(spec_texts(out@) + spec_items(list@) =~= spec_items(list@));
    loop
        invariant
            start <= n,
            n == list@.len(),
            spec_items(list@) == spec_texts(out@) + spec_items(list@.skip(start as int)),
        decreases n - start,
    {
        let ghost rest = list@.skip(start as int);
        let ghost before = spec_texts(out@);
        let mut end: usize = start;
        while end < n && list[end] != 44
            invariant
                start <= end <= n,
                n == list@.len(),
                forall|j: int| start <= j < end ==> list@[j] != 44,
            decreases n - end,
        {
            end = end + 1;
        }
        proof {
            assert forall|j: int| 0 <= j < end - start implies rest[j] != 44 by {
                assert(rest[j] == list@[start + j]);
            }
            lemma_first_item_ends_at(rest, end - start);
            assert(rest.take(end - start) =~= list@.subrange(start as int, end as int));
        }
        let item = trim(slice_subrange(list, start, end));
        out.push(vstd::slice::slice_to_vec(item));
        assert(spec_texts(out@) =~= before + seq![item@]);
        if end >= n {
            assert(before + seq![item@] =~= before + spec_items(rest));
            return out;
        }
        assert(rest.skip(end - start + 1) =~= list@.skip(end + 1));
        assert(before + (seq![item@] + spec_items(list@.skip(end + 1))) =~= before + seq![item@]
            + spec_items(list@.skip(end + 1)));
        start = end + 1;
    }
}

} // verus!
