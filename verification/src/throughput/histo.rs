//! Which instructions a program is made of.

use vstd::prelude::*;

use crate::text::append_decimal;
use crate::text::chars_of;
use crate::text::decimal;

verus! {

/// How many of a run of names are `name`.
pub open spec fn count_of(names: Seq<Seq<char>>, name: Seq<char>) -> nat
    decreases names.len(),
{
    if names.len() == 0 {
        0
    } else {
        count_of(names.drop_last(), name) + if names.last() == name {
            1nat
        } else {
            0nat
        }
    }
}

/// The texts of a run of strings.
pub open spec fn texts(names: Seq<String>) -> Seq<Seq<char>> {
    names.map_values(|s: String| s@)
}

/// One name, and how often it occurs.
pub struct Entry {
    pub name: String,
    pub count: u64,
}

/// Whether one text comes before another, by its first different character, or
/// by being the start of it.
pub open spec fn before(a: Seq<char>, b: Seq<char>) -> bool
    decreases a.len(),
{
    if b.len() == 0 {
        false
    } else if a.len() == 0 {
        true
    } else if a[0] != b[0] {
        a[0] < b[0]
    } else {
        before(a.drop_first(), b.drop_first())
    }
}

/// The order of a histogram: the most frequent first, and equally frequent ones
/// by name.
pub open spec fn ranked(a: Entry, b: Entry) -> bool {
    a.count > b.count || (a.count == b.count && before(a.name@, b.name@))
}

/// A histogram of names: each name once, with its count, in order.
pub open spec fn is_histogram(entries: Seq<Entry>, names: Seq<Seq<char>>) -> bool {
    &&& forall|i: int|
        0 <= i < entries.len() ==> (#[trigger] entries[i]).count == count_of(
            names,
            entries[i].name@,
        ) && entries[i].count > 0
    &&& forall|name: Seq<char>|
        #[trigger] count_of(names, name) > 0 ==> exists|i: int|
            0 <= i < entries.len() && (#[trigger] entries[i]).name@ == name
    &&& forall|i: int, j: int|
        0 <= i < j < entries.len() ==> ranked(#[trigger] entries[i], #[trigger] entries[j])
}

proof fn before_is_strict(a: Seq<char>)
    ensures
        !before(a, a),
    decreases a.len(),
{
    if a.len() > 0 {
        before_is_strict(a.drop_first());
    }
}

proof fn before_is_total(a: Seq<char>, b: Seq<char>)
    ensures
        a == b || before(a, b) || before(b, a),
    decreases a.len(),
{
    if a.len() > 0 && b.len() > 0 {
        before_is_total(a.drop_first(), b.drop_first());
        if a.drop_first() == b.drop_first() && a[0] == b[0] {
            assert(a =~= seq![a[0]] + a.drop_first());
            assert(b =~= seq![b[0]] + b.drop_first());
        }
    } else if a.len() == 0 && b.len() == 0 {
        assert(a =~= b);
    }
}

proof fn before_is_transitive(a: Seq<char>, b: Seq<char>, c: Seq<char>)
    requires
        before(a, b),
        before(b, c),
    ensures
        before(a, c),
    decreases a.len(),
{
    if a.len() > 0 && a[0] == b[0] && b[0] == c[0] {
        before_is_transitive(a.drop_first(), b.drop_first(), c.drop_first());
    }
}

/// The order is an order: no entry comes before itself, of two with different
/// names one comes first, and what comes before comes before what follows.
pub proof fn ranking_is_an_order(a: Entry, b: Entry, c: Entry)
    ensures
        !ranked(a, a),
        a.name@ != b.name@ ==> ranked(a, b) || ranked(b, a),
        ranked(a, b) && ranked(b, c) ==> ranked(a, c),
{
    before_is_strict(a.name@);
    before_is_total(a.name@, b.name@);
    if before(a.name@, b.name@) && before(b.name@, c.name@) {
        before_is_transitive(a.name@, b.name@, c.name@);
    }
}

fn comes_before(a: &[char], b: &[char]) -> (r: bool)
    ensures
        r == before(a@, b@),
{
    let mut i: usize = 0;
    assert(a@.skip(0) =~= a@);
    assert(b@.skip(0) =~= b@);
    while i < a.len() && i < b.len() && a[i] == b[i]
        invariant
            i <= a@.len(),
            i <= b@.len(),
            before(a@, b@) == before(a@.skip(i as int), b@.skip(i as int)),
        decreases a@.len() - i,
    {
        assert(a@.skip(i as int).drop_first() =~= a@.skip(i + 1));
        assert(b@.skip(i as int).drop_first() =~= b@.skip(i + 1));
        i = i + 1;
    }
    if i >= b.len() {
        false
    } else if i >= a.len() {
        true
    } else {
        a[i] < b[i]
    }
}

fn ranks(a: &Entry, b: &Entry) -> (r: bool)
    ensures
        r == ranked(*a, *b),
{
    if a.count != b.count {
        return a.count > b.count;
    }
    let x: Vec<char> = chars_of(a.name.as_str());
    let y: Vec<char> = chars_of(b.name.as_str());
    comes_before(x.as_slice(), y.as_slice())
}

proof fn no_more_than_there_are(names: Seq<Seq<char>>, name: Seq<char>)
    ensures
        count_of(names, name) <= names.len(),
    decreases names.len(),
{
    if names.len() > 0 {
        no_more_than_there_are(names.drop_last(), name);
    }
}

/// Each name once, with its count, in no particular order.
spec fn is_count(entries: Seq<Entry>, names: Seq<Seq<char>>) -> bool {
    &&& forall|i: int|
        0 <= i < entries.len() ==> (#[trigger] entries[i]).count == count_of(
            names,
            entries[i].name@,
        ) && entries[i].count > 0
    &&& forall|name: Seq<char>|
        #[trigger] count_of(names, name) > 0 ==> exists|i: int|
            0 <= i < entries.len() && (#[trigger] entries[i]).name@ == name
    &&& forall|i: int, j: int|
        0 <= i < j < entries.len() ==> (#[trigger] entries[i]).name@ != (#[trigger] entries[j]).name@
}

/// Where a name is among the entries, or past the end.
fn find(entries: &Vec<Entry>, name: &String) -> (r: usize)
    ensures
        r <= entries@.len(),
        r < entries@.len() ==> entries@[r as int].name@ == name@,
        r == entries@.len() ==> forall|j: int|
            0 <= j < entries@.len() ==> (#[trigger] entries@[j]).name@ != name@,
{
    let mut i: usize = 0;
    while i < entries.len()
        invariant
            i <= entries@.len(),
            forall|j: int| 0 <= j < i ==> (#[trigger] entries@[j]).name@ != name@,
        decreases entries@.len() - i,
    {
        if entries[i].name == *name {
            return i;
        }
        i = i + 1;
    }
    i
}

fn count(names: &[String]) -> (r: Vec<Entry>)
    ensures
        is_count(r@, texts(names@)),
{
    let len: usize = names.len();
    let mut out: Vec<Entry> = Vec::new();
    let mut i: usize = 0;
    while i < len
        invariant
            i <= len,
            len == names@.len(),
            is_count(out@, texts(names@).take(i as int)),
        decreases names@.len() - i,
    {
        let ghost so_far = texts(names@).take(i as int);
        let ghost more = texts(names@).take(i + 1);
        let ghost earlier = out@;
        let ghost name = names@[i as int]@;
        assert(more.drop_last() =~= so_far);
        assert(more.last() == name);
        let at: usize = find(&out, &names[i]);
        if at < out.len() {
            proof {
                no_more_than_there_are(so_far, name);
            }
            let n: u64 = out[at].count;
            let entry = Entry { name: names[i].clone(), count: n + 1 };
            out.set(at, entry);
            assert forall|other: Seq<char>| #[trigger] count_of(more, other) > 0 implies exists|
                j: int,
            | 0 <= j < out@.len() && (#[trigger] out@[j]).name@ == other by {
                if other == name {
                    assert(out@[at as int].name@ == other);
                } else {
                    assert(count_of(so_far, other) > 0);
                    let j = choose|j: int|
                        0 <= j < earlier.len() && (#[trigger] earlier[j]).name@ == other;
                    assert(out@[j].name@ == other);
                }
            }
        } else {
            out.push(Entry { name: names[i].clone(), count: 1 });
            proof {
                if count_of(so_far, name) > 0 {
                    let j = choose|j: int|
                        0 <= j < earlier.len() && (#[trigger] earlier[j]).name@ == name;
                    assert(earlier[j].name@ != name);
                }
            }
            assert forall|other: Seq<char>| #[trigger] count_of(more, other) > 0 implies exists|
                j: int,
            | 0 <= j < out@.len() && (#[trigger] out@[j]).name@ == other by {
                if other == name {
                    assert(out@[out@.len() - 1].name@ == other);
                } else {
                    assert(count_of(so_far, other) > 0);
                    let j = choose|j: int|
                        0 <= j < earlier.len() && (#[trigger] earlier[j]).name@ == other;
                    assert(out@[j].name@ == other);
                }
            }
        }
        i = i + 1;
    }
    assert(texts(names@).take(i as int) =~= texts(names@));
    out
}

/// A run of entries is in order.
spec fn in_order(entries: Seq<Entry>) -> bool {
    forall|i: int, j: int|
        0 <= i < j < entries.len() ==> ranked(#[trigger] entries[i], #[trigger] entries[j])
}

/// Put an entry where it belongs.
fn insert(out: &mut Vec<Entry>, entry: Entry)
    requires
        in_order(old(out)@),
        forall|j: int|
            0 <= j < old(out)@.len() ==> (#[trigger] old(out)@[j]).name@ != entry.name@,
    ensures
        in_order(final(out)@),
        exists|at: int| 0 <= at <= old(out)@.len() && final(out)@ == old(out)@.insert(at, entry),
{
    let mut at: usize = 0;
    while at < out.len() && ranks(&out[at], &entry)
        invariant
            at <= out@.len(),
            out@ == old(out)@,
            forall|j: int| 0 <= j < at ==> ranked(#[trigger] out@[j], entry),
        decreases out@.len() - at,
    {
        at = at + 1;
    }
    let ghost before_it = out@;
    proof {
        assert forall|j: int| at <= j < before_it.len() implies ranked(
            entry,
            #[trigger] before_it[j],
        ) by {
            ranking_is_an_order(entry, before_it[at as int], before_it[j]);
            if j > at {
                assert(ranked(before_it[at as int], before_it[j]));
            }
        }
    }
    out.insert(at, entry);
    assert(out@ == before_it.insert(at as int, entry));
    assert forall|i: int, j: int| 0 <= i < j < out@.len() implies ranked(
        #[trigger] out@[i],
        #[trigger] out@[j],
    ) by {
        if i < at && j == at {
            assert(ranked(before_it[i], entry));
        } else if i == at {
            assert(ranked(entry, before_it[j - 1]));
        } else if i < at && j > at {
            assert(ranked(before_it[i], before_it[j - 1]));
        } else if i > at {
            assert(ranked(before_it[i - 1], before_it[j - 1]));
        } else {
            assert(ranked(before_it[i], before_it[j]));
        }
    }
}

/// An entry is among those from `from` on.
spec fn holds(entries: Seq<Entry>, from: int, entry: Entry) -> bool {
    exists|k: int| from <= k < entries.len() && #[trigger] entries[k] == entry
}

/// What has been drawn is exactly what comes from `m` on.
spec fn drawn(out: Seq<Entry>, all: Seq<Entry>, m: int) -> bool {
    &&& forall|j: int| 0 <= j < out.len() ==> holds(all, m, #[trigger] out[j])
    &&& forall|k: int| m <= k < all.len() ==> holds(out, 0, #[trigger] all[k])
}

proof fn one_more_is_drawn(
    earlier: Seq<Entry>,
    out: Seq<Entry>,
    all: Seq<Entry>,
    m: int,
    at: int,
)
    requires
        drawn(earlier, all, m + 1),
        0 <= m < all.len(),
        0 <= at <= earlier.len(),
        out == earlier.insert(at, all[m]),
    ensures
        drawn(out, all, m),
{
    assert(out[at] == all[m]);
    assert forall|j: int| 0 <= j < out.len() implies holds(all, m, #[trigger] out[j]) by {
        if j == at {
            assert(all[m] == out[j]);
        } else {
            let i = if j < at {
                j
            } else {
                j - 1
            };
            assert(out[j] == earlier[i]);
            assert(holds(all, m + 1, earlier[i]));
            let k = choose|k: int| m + 1 <= k < all.len() && #[trigger] all[k] == earlier[i];
            assert(all[k] == out[j]);
        }
    }
    assert forall|k: int| m <= k < all.len() implies holds(out, 0, #[trigger] all[k]) by {
        if k == m {
            assert(out[at] == all[k]);
        } else {
            assert(holds(earlier, 0, all[k]));
            let i = choose|i: int| 0 <= i < earlier.len() && #[trigger] earlier[i] == all[k];
            let j = if i < at {
                i
            } else {
                i + 1
            };
            assert(out[j] == all[k]);
        }
    }
}

proof fn what_was_drawn_has_other_names(
    out: Seq<Entry>,
    all: Seq<Entry>,
    names: Seq<Seq<char>>,
    m: int,
)
    requires
        is_count(all, names),
        drawn(out, all, m + 1),
        0 <= m < all.len(),
    ensures
        forall|j: int| 0 <= j < out.len() ==> (#[trigger] out[j]).name@ != all[m].name@,
{
    assert forall|j: int| 0 <= j < out.len() implies (#[trigger] out[j]).name@ != all[m].name@ by {
        assert(holds(all, m + 1, out[j]));
        let k = choose|k: int| m + 1 <= k < all.len() && #[trigger] all[k] == out[j];
        assert(all[m].name@ != all[k].name@);
    }
}

proof fn an_ordered_count_is_a_histogram(
    out: Seq<Entry>,
    all: Seq<Entry>,
    names: Seq<Seq<char>>,
)
    requires
        is_count(all, names),
        drawn(out, all, 0),
        in_order(out),
    ensures
        is_histogram(out, names),
{
    assert forall|i: int| 0 <= i < out.len() implies (#[trigger] out[i]).count == count_of(
        names,
        out[i].name@,
    ) && out[i].count > 0 by {
        assert(holds(all, 0, out[i]));
        let k = choose|k: int| 0 <= k < all.len() && #[trigger] all[k] == out[i];
        assert(all[k].count > 0);
    }
    assert forall|name: Seq<char>| #[trigger] count_of(names, name) > 0 implies exists|i: int|
        0 <= i < out.len() && (#[trigger] out[i]).name@ == name by {
        let k = choose|k: int| 0 <= k < all.len() && (#[trigger] all[k]).name@ == name;
        assert(holds(out, 0, all[k]));
        let j = choose|j: int| 0 <= j < out.len() && #[trigger] out[j] == all[k];
        assert(out[j].name@ == name);
    }
}

/// The histogram of a run of names.
pub fn histogram(names: &[String]) -> (r: Vec<Entry>)
    ensures
        is_histogram(r@, texts(names@)),
{
    let mut counted: Vec<Entry> = count(names);
    let ghost all = counted@;
    let ghost words = texts(names@);
    let mut out: Vec<Entry> = Vec::new();
    assert(counted@ =~= all.take(counted@.len() as int));
    while counted.len() > 0
        invariant
            is_count(all, words),
            counted@.len() <= all.len(),
            counted@ == all.take(counted@.len() as int),
            in_order(out@),
            drawn(out@, all, counted@.len() as int),
        decreases counted@.len(),
    {
        let ghost earlier = out@;
        let ghost m = counted@.len() - 1;
        if let Some(entry) = counted.pop() {
            assert(entry == all[m]);
            proof {
                what_was_drawn_has_other_names(earlier, all, words, m);
            }
            insert(&mut out, entry);
            proof {
                let at = choose|at: int|
                    0 <= at <= earlier.len() && out@ == earlier.insert(at, entry);
                one_more_is_drawn(earlier, out@, all, m, at);
            }
        }
        assert(counted@ =~= all.take(counted@.len() as int));
    }
    proof {
        an_ordered_count_is_a_histogram(out@, all, words);
    }
    out
}

/// Two histograms of the same names are the same, entry by entry.
pub proof fn a_histogram_is_unique(a: Seq<Entry>, b: Seq<Entry>, names: Seq<Seq<char>>)
    requires
        is_histogram(a, names),
        is_histogram(b, names),
    ensures
        a.len() == b.len(),
        forall|i: int|
            0 <= i < a.len() ==> (#[trigger] a[i]).name@ == b[i].name@ && a[i].count == b[i].count,
{
    if a.len() <= b.len() {
        agree_so_far(a, b, names, a.len() as int);
        no_extra_entry(a, b, names);
    } else {
        agree_so_far(b, a, names, b.len() as int);
        no_extra_entry(b, a, names);
    }
}

/// Of two histograms that agree as far as the first goes, the second is no
/// longer: it would hold a name that already has its place.
proof fn no_extra_entry(a: Seq<Entry>, b: Seq<Entry>, names: Seq<Seq<char>>)
    requires
        is_histogram(a, names),
        is_histogram(b, names),
        a.len() <= b.len(),
        forall|i: int| 0 <= i < a.len() ==> (#[trigger] a[i]).name@ == b[i].name@,
    ensures
        a.len() == b.len(),
{
    if a.len() < b.len() {
        let extra = b[a.len() as int];
        assert(count_of(names, extra.name@) > 0);
        let k = choose|k: int| 0 <= k < a.len() && (#[trigger] a[k]).name@ == extra.name@;
        assert(ranked(b[k], extra));
        assert(b[k].count == extra.count);
        before_is_strict(extra.name@);
    }
}

proof fn agree_so_far(a: Seq<Entry>, b: Seq<Entry>, names: Seq<Seq<char>>, n: int)
    requires
        is_histogram(a, names),
        is_histogram(b, names),
        0 <= n <= a.len(),
        n <= b.len(),
    ensures
        forall|i: int|
            0 <= i < n ==> (#[trigger] a[i]).name@ == b[i].name@ && a[i].count == b[i].count,
    decreases n,
{
    if n > 0 {
        agree_so_far(a, b, names, n - 1);
        no_entry_comes_sooner(a, b, names, n - 1);
        no_entry_comes_sooner(b, a, names, n - 1);
        before_is_total(a[n - 1].name@, b[n - 1].name@);
    }
}

/// Where two histograms agree on the first `n` entries, what one has next does
/// not come after what the other has.
proof fn no_entry_comes_sooner(a: Seq<Entry>, b: Seq<Entry>, names: Seq<Seq<char>>, n: int)
    requires
        is_histogram(a, names),
        is_histogram(b, names),
        0 <= n < a.len(),
        n < b.len(),
        forall|i: int|
            0 <= i < n ==> (#[trigger] a[i]).name@ == b[i].name@ && a[i].count == b[i].count,
    ensures
        !ranked(a[n], b[n]),
{
    if ranked(a[n], b[n]) {
        let mine = a[n];
        assert(count_of(names, mine.name@) > 0);
        let k = choose|k: int| 0 <= k < b.len() && (#[trigger] b[k]).name@ == mine.name@;
        assert(b[k].count == mine.count);
        ranking_is_an_order(mine, b[n], b[k]);
        before_is_strict(mine.name@);
        if k < n {
            assert(ranked(a[k], a[n]));
        } else if k > n {
            assert(ranked(b[n], b[k]));
        }
    }
}

/// The entries in a line: each name, an `x` and its count, with a blank between
/// two.
pub open spec fn line_of(entries: Seq<Entry>) -> Seq<char>
    decreases entries.len(),
{
    if entries.len() == 0 {
        Seq::empty()
    } else {
        line_of(entries.drop_last()) + (if entries.len() > 1 {
            " "@
        } else {
            Seq::empty()
        }) + entries.last().name@ + "x"@ + decimal(entries.last().count as nat)
    }
}

pub fn summary_line(entries: &[Entry]) -> (r: String)
    ensures
        r@ == line_of(entries@),
{
    let mut out: String = String::new();
    let mut i: usize = 0;
    assert(out@ =~= Seq::<char>::empty());
    while i < entries.len()
        invariant
            i <= entries@.len(),
            out@ == line_of(entries@.take(i as int)),
        decreases entries@.len() - i,
    {
        let ghost more = entries@.take(i + 1);
        assert(more.drop_last() =~= entries@.take(i as int));
        if i > 0 {
            out.append(" ");
        }
        out.append(entries[i].name.as_str());
        out.append("x");
        append_decimal(&mut out, entries[i].count);
        i = i + 1;
        assert(out@ =~= line_of(more));
    }
    assert(entries@.take(i as int) =~= entries@);
    out
}

/// What separates the parts of a path.
pub open spec fn is_separator(c: char) -> bool {
    c == '/' || c == '\\'
}

/// Where the last part of the first `i` characters of a path starts.
pub open spec fn last_part(path: Seq<char>, i: int) -> int
    decreases i,
{
    if i <= 0 || is_separator(path[i - 1]) {
        i
    } else {
        last_part(path, i - 1)
    }
}

/// The last part of a path.
pub fn file_name<'a>(path: &'a str) -> (r: &'a str)
    ensures
        r@ == path@.skip(last_part(path@, path@.len() as int)),
{
    let chars: Vec<char> = chars_of(path);
    let len: usize = chars.len();
    let mut i: usize = len;
    while i > 0 && chars[i - 1] != '/' && chars[i - 1] != '\\'
        invariant
            i <= len,
            len == chars@.len(),
            chars@ == path@,
            last_part(path@, len as int) == last_part(path@, i as int),
        decreases i,
    {
        i = i - 1;
    }
    let r: &'a str = path.substring_char(i, len);
    assert(r@ =~= path@.skip(i as int));
    r
}

/// The order of names is that of a dictionary: what two have in common at the start
/// makes no difference, then the lesser character comes first, and a name comes
/// before one that goes on.
pub proof fn names_are_ordered_as_in_a_dictionary(
    start: Seq<char>,
    x: char,
    a: Seq<char>,
    y: char,
    b: Seq<char>,
)
    ensures
        x != y ==> (before(start + seq![x] + a, start + seq![y] + b) <==> x < y),
        before(start, start + seq![x] + a),
        !before(start + seq![x] + a, start),
    decreases start.len(),
{
    let p = start + seq![x] + a;
    let q = start + seq![y] + b;
    if start.len() > 0 {
        let rest = start.drop_first();
        names_are_ordered_as_in_a_dictionary(rest, x, a, y, b);
        assert(p.drop_first() =~= rest + seq![x] + a);
        assert(q.drop_first() =~= rest + seq![y] + b);
        assert(p[0] == start[0] && q[0] == start[0]);
    } else {
        assert(p[0] == x && q[0] == y);
    }
}

/// The more frequent a name, the earlier it comes; of equally frequent names the one
/// that is first in a dictionary does.
pub proof fn the_most_frequent_comes_first(
    entries: Seq<Entry>,
    names: Seq<Seq<char>>,
    i: int,
    j: int,
)
    requires
        is_histogram(entries, names),
        0 <= i < j < entries.len(),
    ensures
        count_of(names, entries[i].name@) >= count_of(names, entries[j].name@),
        count_of(names, entries[i].name@) == count_of(names, entries[j].name@) ==> before(
            entries[i].name@,
            entries[j].name@,
        ),
        entries[i].name@ != entries[j].name@,
{
    assert(ranked(entries[i], entries[j]));
    before_is_strict(entries[i].name@);
}

/// Every name counts once for each time it occurs, and for no other.
pub proof fn a_name_counts_once_for_each_time(
    names: Seq<Seq<char>>,
    name: Seq<char>,
    other: Seq<char>,
)
    ensures
        count_of(Seq::empty(), other) == 0,
        count_of(names.push(name), name) == count_of(names, name) + 1,
        other != name ==> count_of(names.push(name), other) == count_of(names, other),
{
    assert(names.push(name).drop_last() =~= names);
}

/// A line is its entries, each a name, an `x` and how often it occurs, with one blank
/// between two and none at either end.
pub proof fn a_line_is_its_entries(entries: Seq<Entry>, entry: Entry)
    ensures
        line_of(Seq::empty()) == Seq::<char>::empty(),
        entries.len() == 0 ==> line_of(entries.push(entry)) == entry.name@ + seq!['x'] + decimal(
            entry.count as nat,
        ),
        entries.len() > 0 ==> line_of(entries.push(entry)) == line_of(entries) + seq![' ']
            + entry.name@ + seq!['x'] + decimal(entry.count as nat),
{
    reveal_strlit(" ");
    reveal_strlit("x");
    assert(" "@ =~= seq![' ']);
    assert("x"@ =~= seq!['x']);
    assert(entries.push(entry).drop_last() =~= entries);
    if entries.len() == 0 {
        assert(line_of(entries) == Seq::<char>::empty());
        assert(entries.push(entry).last() == entry);
        assert(line_of(entries.push(entry)) =~= entry.name@ + seq!['x'] + decimal(
            entry.count as nat,
        ));
    }
}

/// The last part of a path holds no separator, and one is right before it unless it
/// is the whole path.
pub proof fn a_file_name_is_behind_the_last_separator(path: Seq<char>, i: int)
    requires
        0 <= i <= path.len(),
    ensures
        0 <= last_part(path, i) <= i,
        forall|k: int|
            last_part(path, i) <= k < i ==> #[trigger] path[k] != '/' && path[k] != '\\',
        last_part(path, i) > 0 ==> path[last_part(path, i) - 1] == '/' || path[last_part(path, i)
            - 1] == '\\',
    decreases i,
{
    if i > 0 && !is_separator(path[i - 1]) {
        a_file_name_is_behind_the_last_separator(path, i - 1);
    }
}

} // verus!
