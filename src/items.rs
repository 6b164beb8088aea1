use vstd::prelude::*;
use vstd::pervasive::unreached;
use vstd::string::StrSliceExecFns;

verus! {

/// A priced item; searches compare items by price alone.
#[derive(Debug, PartialEq)]
pub struct Item {
    /// The price of the item
    pub price: u64,
    /// The associated string title of the item
    pub title: String,
}

/// Prices never decrease from left to right.
pub open spec fn sorted_by_price(s: Seq<Item>) -> bool {
    forall|i: int, j: int| 0 <= i <= j < s.len() ==> s[i].price <= s[j].price
}

/// Some item of `s` costs at most `x`.
pub open spec fn has_floor(s: Seq<Item>, x: int) -> bool {
    exists|j: int| 0 <= j < s.len() && s[j].price <= x
}

/// Position `k` holds an item costing at most `x`, and no item of `s` that costs
/// at most `x` costs more than it.
pub open spec fn is_floor_index(s: Seq<Item>, x: int, k: int) -> bool {
    &&& 0 <= k < s.len()
    &&& s[k].price <= x
    &&& forall|j: int| 0 <= j < s.len() && s[j].price <= x ==> s[j].price <= s[k].price
}

/// Tells whether the prices of `items` never decrease from left to right.
pub fn is_sorted_by_price(items: &[Item]) -> (r: bool)
    ensures
        r == sorted_by_price(items@),
{
    let mut i: usize = 1;
    while i < items.len()
        invariant
            1 <= i,
            forall|a: int, b: int|
                0 <= a <= b < i && b < items@.len() ==> items@[a].price <= items@[b].price,
        decreases items@.len() - i,
    {
        if items[i - 1].price > items[i].price {
            assert(!sorted_by_price(items@)) by {
                assert(items@[i - 1].price > items@[i as int].price);
            }
            return false;
        }
        i = i + 1;
    }
    true
}

/// Position `k` of `s` starts the separator `", "` between title and price.
pub open spec fn is_separator_at(s: Seq<char>, k: int) -> bool {
    0 <= k && k + 1 < s.len() && s[k] == ',' && s[k + 1] == ' '
}

/// `k` is where the one and only separator of `s` starts.
pub open spec fn sole_separator(s: Seq<char>, k: int) -> bool {
    &&& is_separator_at(s, k)
    &&& forall|m: int| #[trigger] is_separator_at(s, m) ==> m == k
}

/// An ASCII decimal digit.
pub open spec fn is_digit(c: char) -> bool {
    '0' <= c <= '9'
}

/// The number that a run of decimal digits spells, most significant first.
pub open spec fn digits_value(d: Seq<char>) -> int
    decreases d.len(),
{
    if d.len() == 0 {
        0
    } else {
        digits_value(d.drop_last()) * 10 + (d.last() as int - '0' as int)
    }
}

/// The digits of a price text: all of it, or all but a leading `+`.
pub open spec fn price_digits(t: Seq<char>) -> Seq<char> {
    if t.len() > 0 && t[0] == '+' {
        t.subrange(1, t.len() as int)
    } else {
        t
    }
}

/// `t` is an unsigned decimal number that fits in a `u64`, with an optional
/// leading `+`.
pub open spec fn is_price_text(t: Seq<char>) -> bool {
    let d = price_digits(t);
    &&& d.len() > 0
    &&& forall|i: int| 0 <= i < d.len() ==> is_digit(#[trigger] d[i])
    &&& digits_value(d) <= u64::MAX
}

/// A record `"<title>, <price>"`: one separator, then a price text.
pub open spec fn is_record(s: Seq<char>) -> bool {
    exists|k: int| sole_separator(s, k) && is_price_text(s.subrange(k + 2, s.len() as int))
}

/// The separator's position in a record.
pub open spec fn record_separator(s: Seq<char>) -> int {
    choose|k: int| sole_separator(s, k)
}

/// The title of a record: everything before the separator.
pub open spec fn record_title(s: Seq<char>) -> Seq<char> {
    s.subrange(0, record_separator(s))
}

/// The price of a record: the number after the separator.
pub open spec fn record_price(s: Seq<char>) -> int {
    digits_value(price_digits(s.subrange(record_separator(s) + 2, s.len() as int)))
}

/// The characters of `line`, in order.
fn chars_of(line: &str) -> (r: Vec<char>)
    ensures
        r@ == line@,
{
    let mut cs: Vec<char> = Vec::new();
    for c in it: line.chars()
        invariant
            cs@ == it.seq().take(it.index()),
    {
        cs.push(c);
    }
    cs
}

/// The lines of `s` that are not empty, in order.
pub open spec fn nonempty_lines(s: Seq<Seq<char>>) -> Seq<Seq<char>>
    decreases s.len(),
{
    if s.len() == 0 {
        s
    } else if s.last().len() == 0 {
        nonempty_lines(s.drop_last())
    } else {
        nonempty_lines(s.drop_last()).push(s.last())
    }
}

/// The text of each line.
pub open spec fn line_views(lines: Seq<String>) -> Seq<Seq<char>> {
    lines.map_values(|l: String| l@)
}

/// `item` is what the record `line` describes.
pub open spec fn item_of_record(item: Item, line: Seq<char>) -> bool {
    item.title@ == record_title(line) && item.price == record_price(line)
}

/// A run of digits spells at least as much as any of its prefixes, and never a
/// negative number.
proof fn lemma_digits_prefix_le(d: Seq<char>, k: int)
    requires
        0 <= k <= d.len(),
        forall|i: int| 0 <= i < d.len() ==> is_digit(#[trigger] d[i]),
    ensures
        0 <= digits_value(d.take(k)) <= digits_value(d),
    decreases d.len(),
{
    if k == d.len() {
        assert(d.take(k) =~= d);
        if d.len() > 0 {
            lemma_digits_prefix_le(d.drop_last(), k - 1);
            assert(d.drop_last().take(k - 1) =~= d.drop_last());
        }
    } else {
        lemma_digits_prefix_le(d.drop_last(), k);
        assert(d.drop_last().take(k) =~= d.take(k));
        lemma_digits_prefix_le(d.drop_last(), d.len() - 1);
        assert(d.drop_last().take(d.len() - 1) =~= d.drop_last());
    }
}

/// Where the one separator of `cs` starts, or `None` when `cs` holds none or
/// more than one.
fn find_separator(cs: &Vec<char>) -> (r: Option<usize>)
    ensures
        r is None <==> !exists|k: int| sole_separator(cs@, k),
        r matches Some(k) ==> sole_separator(cs@, k as int),
{
    let mut found: Option<usize> = None;
    let mut i: usize = 0;
    while i < cs.len()
        invariant
            i <= cs@.len(),
            found is None ==> forall|m: int| 0 <= m < i ==> !#[trigger] is_separator_at(cs@, m),
            found matches Some(k) ==> {
                &&& k < i
                &&& is_separator_at(cs@, k as int)
                &&& forall|m: int| 0 <= m < i && #[trigger] is_separator_at(cs@, m) ==> m == k
            },
        decreases cs@.len() - i,
    {
        if i + 1 < cs.len() && cs[i] == ',' && cs[i + 1] == ' ' {
            if let Some(k) = found {
                proof {
                    assert(is_separator_at(cs@, i as int));
                    assert(!exists|m: int| sole_separator(cs@, m)) by {
                        if exists|m: int| sole_separator(cs@, m) {
                            let m = choose|m: int| sole_separator(cs@, m);
                            assert(is_separator_at(cs@, k as int));
                        }
                    }
                }
                return None;
            }
            found = Some(i);
        }
        i = i + 1;
    }
    proof {
        if let Some(k) = found {
            assert(sole_separator(cs@, k as int));
        } else {
            assert(!exists|k: int| sole_separator(cs@, k)) by {
                if exists|k: int| sole_separator(cs@, k) {
                    let k = choose|k: int| sole_separator(cs@, k);
                    assert(is_separator_at(cs@, k));
                }
            }
        }
    }
    found
}

/// Reads the price text that fills `cs` from position `from` on.
fn parse_price(cs: &Vec<char>, from: usize) -> (r: Option<u64>)
    requires
        from <= cs@.len(),
    ensures
        r is Some <==> is_price_text(cs@.subrange(from as int, cs@.len() as int)),
        r matches Some(v) ==> v == digits_value(
            price_digits(cs@.subrange(from as int, cs@.len() as int)),
        ),
{
    let ghost t = cs@.subrange(from as int, cs@.len() as int);
    let n = cs.len();
    let mut start = from;
    if start < n && cs[start] == '+' {
        start = start + 1;
    }
    let ghost d = cs@.subrange(start as int, n as int);
    assert(price_digits(t) =~= d);
    if start == n {
        return None;
    }
    let mut v: u64 = 0;
    let mut i: usize = start;
    while i < n
        invariant
            t == cs@.subrange(from as int, n as int),
            d == cs@.subrange(start as int, n as int),
            price_digits(t) == d,
            n == cs@.len(),
            start <= i <= n,
            v == digits_value(d.take(i - start)),
            forall|j: int| 0 <= j < i - start ==> is_digit(#[trigger] d[j]),
        decreases n - i,
    {
        let c = cs[i];
        assert(c == d[i - start]);
        if !('0' <= c && c <= '9') {
            return None;
        }
        let digit = (c as u32 - '0' as u32) as u64;
        assert(d.take(i - start + 1).drop_last() =~= d.take(i - start));
        if v > (u64::MAX - digit) / 10 {
            proof {
                assert(v * 10 + digit > u64::MAX) by (nonlinear_arith)
                    requires
                        v > (u64::MAX - digit) / 10,
                        digit <= 9,
                ;
                if is_price_text(t) {
                    lemma_digits_prefix_le(d, i - start + 1);
                }
            }
            return None;
        }
        assert(v * 10 + digit <= u64::MAX) by (nonlinear_arith)
            requires
                v <= (u64::MAX - digit) / 10,
                digit <= 9,
        ;
        v = v * 10 + digit;
        i = i + 1;
    }
    assert(d.take(n - start) =~= d);
    Some(v)
}

impl Item {
    /// Reads an item from a record line `"<title>, <price>"`, or gives `None`
    /// when the line has not exactly one `", "` or its price is not an unsigned
    /// decimal number that fits in a `u64`.
    pub fn parse_input_line(line: &str) -> (r: Option<Item>)
        ensures
            r is Some <==> is_record(line@),
            r matches Some(item) ==> item_of_record(item, line@),
    {
        let cs = chars_of(line);
        let n = cs.len();
        match find_separator(&cs) {
            None => None,
            Some(k) => {
                let ghost s = line@;
                assert(record_separator(s) == k as int);
                assert(k + 2 <= n);
                match parse_price(&cs, k + 2) {
                    None => None,
                    Some(price) => {
                        let title = line.substring_char(0, k).to_owned();
                        Some(Item { price, title })
                    },
                }
            },
        }
    }

    /// Constructs an item from a record line `"<title>, <price>"`.
    pub fn from_input_line(line: &str) -> (r: Self)
        requires
            is_record(line@),
        ensures
            item_of_record(r, line@),
    {
        match Item::parse_input_line(line) {
            Some(item) => item,
            None => unreached(),
        }
    }
}

/// Reads one item from each line that is not empty, or gives `None` when one
/// of those lines is not a record.
pub fn items_from_lines(lines: &Vec<String>) -> (r: Option<Vec<Item>>)
    ensures
        r is Some <==> forall|i: int|
            0 <= i < lines@.len() && #[trigger] lines@[i]@.len() > 0 ==> is_record(lines@[i]@),
        r matches Some(v) ==> {
            let recs = nonempty_lines(line_views(lines@));
            &&& v@.len() == recs.len()
            &&& forall|k: int| 0 <= k < v@.len() ==> item_of_record(#[trigger] v@[k], recs[k])
        },
{
    let ghost views = line_views(lines@);
    let mut items: Vec<Item> = Vec::new();
    let mut i: usize = 0;
    while i < lines.len()
        invariant
            views == line_views(lines@),
            i <= lines@.len(),
            forall|j: int| 0 <= j < i && #[trigger] lines@[j]@.len() > 0 ==> is_record(lines@[j]@),
            items@.len() == nonempty_lines(views.take(i as int)).len(),
            forall|k: int|
                0 <= k < items@.len() ==> item_of_record(
                    #[trigger] items@[k],
                    nonempty_lines(views.take(i as int))[k],
                ),
        decreases lines@.len() - i,
    {
        let line = lines[i].as_str();
        assert(views.take(i + 1).drop_last() =~= views.take(i as int));
        assert(views[i as int] == lines@[i as int]@);
        if !line.is_empty() {
            match Item::parse_input_line(line) {
                Some(item) => items.push(item),
                None => return None,
            }
        }
        i = i + 1;
    }
    assert(views.take(lines@.len() as int) =~= views);
    Some(items)
}

} // verus!
