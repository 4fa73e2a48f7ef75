use vstd::prelude::*;

verus! {

const LT: u8 = 60;

const GT: u8 = 62;

const SLASH: u8 = 47;

const SPACE: u8 = 32;

/// `pat` occurs in `s` starting at `i`.
pub open spec fn occurs_at(s: Seq<u8>, pat: Seq<u8>, i: int) -> bool {
    0 <= i && i + pat.len() <= s.len() && s.subrange(i, i + pat.len()) == pat
}

/// The first start `i >= from` of `pat` with the whole occurrence before `to`.
pub open spec fn first_at(s: Seq<u8>, pat: Seq<u8>, from: int, to: int) -> Option<int>
    decreases to - from,
{
    if from < 0 || from >= to || from + pat.len() > to {
        None
    } else if occurs_at(s, pat, from) {
        Some(from)
    } else {
        first_at(s, pat, from + 1, to)
    }
}

/// An opening tag `<name` starts at `i`, followed before `to` by `>` or a
/// space (attributes follow).
pub open spec fn open_tag_at(s: Seq<u8>, name: Seq<u8>, i: int, to: int) -> bool {
    let after = i + 1 + name.len();
    &&& 0 <= i
    &&& after < to
    &&& to <= s.len()
    &&& s[i] == '<' as u8
    &&& s.subrange(i + 1, after) == name
    &&& (s[after] == '>' as u8 || s[after] == ' ' as u8)
}

/// The first opening tag of `name` at or after `from`, before `to`.
pub open spec fn first_open_tag(s: Seq<u8>, name: Seq<u8>, from: int, to: int) -> Option<int>
    decreases to - from,
{
    if from < 0 || from + 1 + name.len() >= to {
        None
    } else if open_tag_at(s, name, from, to) {
        Some(from)
    } else {
        first_open_tag(s, name, from + 1, to)
    }
}

/// The closing tag `</name>`.
pub open spec fn close_tag(name: Seq<u8>) -> Seq<u8> {
    seq!['<' as u8, '/' as u8] + name + seq!['>' as u8]
}

/// The content of the first `name` element inside `s[lo..hi]`: from just
/// after the `>` that ends its opening tag to the start of the first
/// `</name>` after it.
pub open spec fn element_content(s: Seq<u8>, name: Seq<u8>, lo: int, hi: int) -> Option<(int, int)> {
    match first_open_tag(s, name, lo, hi) {
        None => None,
        Some(a) => match first_at(s, seq!['>' as u8], a, hi) {
            None => None,
            Some(g) => match first_at(s, close_tag(name), g + 1, hi) {
                None => None,
                Some(b) => Some((g + 1, b)),
            },
        },
    }
}

/// The bytes that open a character-data section.
pub open spec fn cdata_open() -> Seq<u8> {
    seq![
        '<' as u8,
        '!' as u8,
        '[' as u8,
        'C' as u8,
        'D' as u8,
        'A' as u8,
        'T' as u8,
        'A' as u8,
        '[' as u8,
    ]
}

/// The bytes that close a character-data section.
pub open spec fn cdata_close() -> Seq<u8> {
    seq![']' as u8, ']' as u8, '>' as u8]
}

/// `s[lo..hi]` without the character-data wrapper, where it is one.
pub open spec fn unwrapped(s: Seq<u8>, lo: int, hi: int) -> (int, int) {
    if hi - lo >= 12 && occurs_at(s, cdata_open(), lo) && occurs_at(s, cdata_close(), hi - 3) {
        (lo + 9, hi - 3)
    } else {
        (lo, hi)
    }
}

/// The item blocks of a feed, as content ranges, scanning from `from`: each
/// runs from the end of an `<item>` opening tag to the next `</item>`.
pub open spec fn item_blocks(s: Seq<u8>, from: int) -> Seq<(int, int)>
    decreases s.len() - from,
{
    if from < 0 || from >= s.len() {
        Seq::<(int, int)>::empty()
    } else {
        match element_content(s, item_name(), from, s.len() as int) {
            None => Seq::<(int, int)>::empty(),
            Some((a, b)) => if from < b + 7 <= s.len() {
                seq![(a, b)] + item_blocks(s, b + 7)
            } else {
                Seq::<(int, int)>::empty()
            },
        }
    }
}

/// The element name `item`.
pub open spec fn item_name() -> Seq<u8> {
    seq!['i' as u8, 't' as u8, 'e' as u8, 'm' as u8]
}

fn matches_at(s: &[u8], pat: &[u8], i: usize) -> (r: bool)
    requires
        i <= s@.len(),
        pat@.len() <= s@.len() - i,
    ensures
        r == occurs_at(s@, pat@, i as int),
{
    let len = s.len();
    let mut j: usize = 0;
    while j < pat.len()
        invariant
            len == s@.len(),
            j <= pat@.len(),
            i <= s@.len(),
            pat@.len() <= s@.len() - i,
            forall|k: int| 0 <= k < j ==> s@[i + k] == pat@[k],
        decreases pat@.len() - j,
    {
        if s[i + j] != pat[j] {
            assert(s@.subrange(i as int, i + pat@.len())[j as int] != pat@[j as int]);
            return false;
        }
        j = j + 1;
    }
    assert(s@.subrange(i as int, i + pat@.len()) =~= pat@);
    true
}

/// The first start of `pat` at or after `from` whose occurrence ends before `to`.
pub fn find_between(s: &[u8], pat: &[u8], from: usize, to: usize) -> (r: Option<usize>)
    requires
        from <= to <= s@.len(),
    ensures
        match r {
            Some(i) => first_at(s@, pat@, from as int, to as int) == Some(i as int),
            None => first_at(s@, pat@, from as int, to as int) is None,
        },
{
    let mut i = from;
    while i < to && pat.len() <= to - i
        invariant
            from <= i,
            to <= s@.len(),
            first_at(s@, pat@, from as int, to as int) == first_at(s@, pat@, i as int, to as int),
        decreases to - i,
    {
        if matches_at(s, pat, i) {
            return Some(i);
        }
        i = i + 1;
    }
    None
}

/// The first opening tag of `name` at or after `from`, before `to`.
fn find_open_tag(s: &[u8], name: &[u8], from: usize, to: usize) -> (r: Option<usize>)
    requires
        from <= to <= s@.len(),
    ensures
        match r {
            Some(i) => first_open_tag(s@, name@, from as int, to as int) == Some(i as int),
            None => first_open_tag(s@, name@, from as int, to as int) is None,
        },
{
    let mut i = from;
    while i < to && name.len() < to - i - 1
        invariant
            from <= i,
            to <= s@.len(),
            first_open_tag(s@, name@, from as int, to as int) == first_open_tag(
                s@,
                name@,
                i as int,
                to as int,
            ),
        decreases to - i,
    {
        let after = i + 1 + name.len();
        if s[i] == LT && matches_at(s, name, i + 1) && (s[after] == GT || s[after] == SPACE) {
            return Some(i);
        }
        i = i + 1;
    }
    None
}

fn closing_tag(name: &[u8]) -> (r: Vec<u8>)
    ensures
        r@ == close_tag(name@),
{
    let mut r: Vec<u8> = vec![LT, SLASH];
    let mut j: usize = 0;
    while j < name.len()
        invariant
            j <= name@.len(),
            r@ == seq!['<' as u8, '/' as u8] + name@.take(j as int),
        decreases name@.len() - j,
    {
        r.push(name[j]);
        j = j + 1;
        assert(r@ == seq!['<' as u8, '/' as u8] + name@.take(j as int));
    }
    r.push(GT);
    assert(name@.take(name@.len() as int) == name@);
    r
}

/// The content range of the first `name` element inside `s[lo..hi]`.
pub fn find_element(s: &[u8], name: &[u8], lo: usize, hi: usize) -> (r: Option<(usize, usize)>)
    requires
        lo <= hi <= s@.len(),
    ensures
        match r {
            Some((a, b)) => element_content(s@, name@, lo as int, hi as int) == Some(
                (a as int, b as int),
            ),
            None => element_content(s@, name@, lo as int, hi as int) is None,
        },
{
    let a = match find_open_tag(s, name, lo, hi) {
        Some(a) => a,
        None => return None,
    };
    proof {
        lemma_first_open_tag_bounds(s@, name@, lo as int, hi as int);
    }
    let gt: Vec<u8> = vec![GT];
    assert(gt@ == seq!['>' as u8]);
    let g = match find_between(s, gt.as_slice(), a, hi) {
        Some(g) => g,
        None => return None,
    };
    proof {
        lemma_first_at_bounds(s@, seq!['>' as u8], a as int, hi as int);
    }
    let close = closing_tag(name);
    match find_between(s, close.as_slice(), g + 1, hi) {
        Some(b) => Some((g + 1, b)),
        None => None,
    }
}

proof fn lemma_first_open_tag_bounds(s: Seq<u8>, name: Seq<u8>, from: int, to: int)
    ensures
        first_open_tag(s, name, from, to) matches Some(i) ==> from <= i && open_tag_at(
            s,
            name,
            i,
            to,
        ),
    decreases to - from,
{
    if !(from < 0 || from + 1 + name.len() >= to) && !open_tag_at(s, name, from, to) {
        lemma_first_open_tag_bounds(s, name, from + 1, to);
    }
}

proof fn lemma_first_at_bounds(s: Seq<u8>, pat: Seq<u8>, from: int, to: int)
    ensures
        first_at(s, pat, from, to) matches Some(i) ==> from <= i && i + pat.len() <= to
            && occurs_at(s, pat, i),
    decreases to - from,
{
    if !(from < 0 || from >= to || from + pat.len() > to) && !occurs_at(s, pat, from) {
        lemma_first_at_bounds(s, pat, from + 1, to);
    }
}

/// The element name `title`.
pub open spec fn title_name() -> Seq<u8> {
    seq!['t' as u8, 'i' as u8, 't' as u8, 'l' as u8, 'e' as u8]
}

/// The element name `link`.
pub open spec fn link_name() -> Seq<u8> {
    seq!['l' as u8, 'i' as u8, 'n' as u8, 'k' as u8]
}

/// The element name `pubDate`.
pub open spec fn pub_date_name() -> Seq<u8> {
    seq!['p' as u8, 'u' as u8, 'b' as u8, 'D' as u8, 'a' as u8, 't' as u8, 'e' as u8]
}

/// The element name `source`.
pub open spec fn source_name() -> Seq<u8> {
    seq!['s' as u8, 'o' as u8, 'u' as u8, 'r' as u8, 'c' as u8, 'e' as u8]
}

/// The element name `description`.
pub open spec fn description_name() -> Seq<u8> {
    seq![
        'd' as u8,
        'e' as u8,
        's' as u8,
        'c' as u8,
        'r' as u8,
        'i' as u8,
        'p' as u8,
        't' as u8,
        'i' as u8,
        'o' as u8,
        'n' as u8,
    ]
}

/// The text range of field `name` in the item block `s[lo..hi]`: the
/// element's content, without a character-data wrapper.
pub open spec fn field_range(s: Seq<u8>, name: Seq<u8>, lo: int, hi: int) -> Option<(int, int)> {
    match element_content(s, name, lo, hi) {
        Some((a, b)) => Some(unwrapped(s, a, b)),
        None => None,
    }
}

/// `r` is the range `e`, as positions.
pub open spec fn range_is(r: Option<(usize, usize)>, e: Option<(int, int)>) -> bool {
    match (r, e) {
        (Some((a, b)), Some((c, d))) => a as int == c && b as int == d,
        (None, None) => true,
        _ => false,
    }
}

/// Byte ranges, within a feed body, of the fields of one item; a field that
/// the item lacks is `None`.
#[derive(Clone, Copy, Debug, PartialEq, Eq)]
pub struct FeedEntry {
    pub title: Option<(usize, usize)>,
    pub link: Option<(usize, usize)>,
    pub published_at: Option<(usize, usize)>,
    pub source_label: Option<(usize, usize)>,
    pub description: Option<(usize, usize)>,
}

/// `e` holds the field ranges of the item block `block` of `s`.
pub open spec fn entry_of(s: Seq<u8>, e: FeedEntry, block: (int, int)) -> bool {
    &&& range_is(e.title, field_range(s, title_name(), block.0, block.1))
    &&& range_is(e.link, field_range(s, link_name(), block.0, block.1))
    &&& range_is(e.published_at, field_range(s, pub_date_name(), block.0, block.1))
    &&& range_is(e.source_label, field_range(s, source_name(), block.0, block.1))
    &&& range_is(e.description, field_range(s, description_name(), block.0, block.1))
}

fn unwrap_cdata(s: &[u8], lo: usize, hi: usize) -> (r: (usize, usize))
    requires
        lo <= hi <= s@.len(),
    ensures
        r.0 as int == unwrapped(s@, lo as int, hi as int).0,
        r.1 as int == unwrapped(s@, lo as int, hi as int).1,
{
    let open: Vec<u8> = vec![60, 33, 91, 67, 68, 65, 84, 65, 91];
    let close: Vec<u8> = vec![93, 93, 62];
    assert(open@ == cdata_open());
    assert(close@ == cdata_close());
    if hi - lo >= 12 && matches_at(s, open.as_slice(), lo) && matches_at(s, close.as_slice(), hi - 3) {
        (lo + 9, hi - 3)
    } else {
        (lo, hi)
    }
}

fn find_field(s: &[u8], name: &[u8], lo: usize, hi: usize) -> (r: Option<(usize, usize)>)
    requires
        lo <= hi <= s@.len(),
    ensures
        range_is(r, field_range(s@, name@, lo as int, hi as int)),
{
    match find_element(s, name, lo, hi) {
        Some((a, b)) => {
            proof {
                lemma_element_bounds(s@, name@, lo as int, hi as int);
            }
            Some(unwrap_cdata(s, a, b))
        },
        None => None,
    }
}

proof fn lemma_element_bounds(s: Seq<u8>, name: Seq<u8>, lo: int, hi: int)
    requires
        0 <= lo <= hi <= s.len(),
    ensures
        element_content(s, name, lo, hi) matches Some((a, b)) ==> lo <= a <= b && b + close_tag(
            name,
        ).len() <= hi && occurs_at(s, close_tag(name), b),
{
    lemma_first_open_tag_bounds(s, name, lo, hi);
    if let Some(a) = first_open_tag(s, name, lo, hi) {
        lemma_first_at_bounds(s, seq!['>' as u8], a, hi);
        if let Some(g) = first_at(s, seq!['>' as u8], a, hi) {
            lemma_first_at_bounds(s, close_tag(name), g + 1, hi);
        }
    }
}

/// The ranges of `r` as integer pairs.
pub open spec fn as_int_pairs(r: Seq<(usize, usize)>) -> Seq<(int, int)> {
    r.map_values(|p: (usize, usize)| (p.0 as int, p.1 as int))
}

/// The content ranges of the item blocks of a feed body, in order.
pub fn item_ranges(s: &[u8]) -> (r: Vec<(usize, usize)>)
    ensures
        as_int_pairs(r@) == item_blocks(s@, 0),
{
    let len = s.len();
    let item: Vec<u8> = vec![105, 116, 101, 109];
    assert(item@ == item_name());
    let mut r: Vec<(usize, usize)> = Vec::new();
    let mut from: usize = 0;
    while from < len
        invariant
            len == s@.len(),
            item@ == item_name(),
            from <= len,
            as_int_pairs(r@) + item_blocks(s@, from as int) == item_blocks(s@, 0),
        decreases len - from,
    {
        let ghost prev = r@;
        let item_slice = item.as_slice();
        assert(item_slice@ == item_name());
        match find_element(s, item_slice, from, len) {
            Some((a, b)) => {
                if len >= 7 && b <= len - 7 && from < b + 7 {
                    assert(item_blocks(s@, from as int) == seq![(a as int, b as int)]
                        + item_blocks(s@, b + 7));
                    r.push((a, b));
                    assert(as_int_pairs(r@) == as_int_pairs(prev) + seq![(a as int, b as int)]);
                    from = b + 7;
                } else {
                    assert(item_blocks(s@, from as int) == Seq::<(int, int)>::empty());
                    assert(as_int_pairs(r@) + Seq::<(int, int)>::empty() == as_int_pairs(r@));
                    return r;
                }
            },
            None => {
                assert(as_int_pairs(r@) + Seq::<(int, int)>::empty() == as_int_pairs(r@));
                return r;
            },
        }
    }
    assert(as_int_pairs(r@) + Seq::<(int, int)>::empty() == as_int_pairs(r@));
    r
}

/// Reads the items of a syndication feed body: for each item block, in
/// order, the byte ranges of its title, link, publication date, source and
/// description.
pub fn feed_entries(body: &[u8]) -> (r: Vec<FeedEntry>)
    ensures
        r@.len() == item_blocks(body@, 0).len(),
        forall|i: int| 0 <= i < r@.len() ==> entry_of(body@, #[trigger] r@[i], item_blocks(body@, 0)[i]),
{
    let blocks = item_ranges(body);
    let title: Vec<u8> = vec![116, 105, 116, 108, 101];
    let link: Vec<u8> = vec![108, 105, 110, 107];
    let pub_date: Vec<u8> = vec![112, 117, 98, 68, 97, 116, 101];
    let source: Vec<u8> = vec![115, 111, 117, 114, 99, 101];
    let description: Vec<u8> = vec![100, 101, 115, 99, 114, 105, 112, 116, 105, 111, 110];
    assert(title@ == title_name());
    assert(link@ == link_name());
    assert(pub_date@ == pub_date_name());
    assert(source@ == source_name());
    assert(description@ == description_name());
    proof {
        lemma_blocks_in_bounds(body@, 0);
    }
    let mut r: Vec<FeedEntry> = Vec::new();
    let mut i: usize = 0;
    while i < blocks.len()
        invariant
            i <= blocks@.len(),
            as_int_pairs(blocks@) == item_blocks(body@, 0),
            forall|k: int| 0 <= k < item_blocks(body@, 0).len() ==> 0 <= (#[trigger] item_blocks(body@, 0)[k]).0 <= item_blocks(body@, 0)[k].1 <= body@.len(),
            title@ == title_name(),
            link@ == link_name(),
            pub_date@ == pub_date_name(),
            source@ == source_name(),
            description@ == description_name(),
            r@.len() == i,
            forall|k: int| 0 <= k < i ==> entry_of(body@, #[trigger] r@[k], item_blocks(body@, 0)[k]),
        decreases blocks@.len() - i,
    {
        let (lo, hi) = blocks[i];
        assert(item_blocks(body@, 0)[i as int] == (lo as int, hi as int));
        let entry = FeedEntry {
            title: find_field(body, title.as_slice(), lo, hi),
            link: find_field(body, link.as_slice(), lo, hi),
            published_at: find_field(body, pub_date.as_slice(), lo, hi),
            source_label: find_field(body, source.as_slice(), lo, hi),
            description: find_field(body, description.as_slice(), lo, hi),
        };
        r.push(entry);
        i = i + 1;
    }
    r
}

proof fn lemma_blocks_in_bounds(s: Seq<u8>, from: int)
    ensures
        forall|k: int| 0 <= k < item_blocks(s, from).len() ==> 0 <= (#[trigger] item_blocks(s, from)[k]).0 <= item_blocks(s, from)[k].1 <= s.len(),
    decreases s.len() - from,
{
    if !(from < 0 || from >= s.len()) {
        lemma_element_bounds(s, item_name(), from, s.len() as int);
        if let Some((a, b)) = element_content(s, item_name(), from, s.len() as int) {
            if from < b + 7 <= s.len() {
                lemma_blocks_in_bounds(s, b + 7);
                let rest = item_blocks(s, b + 7);
                assert forall|k: int| 0 <= k < item_blocks(s, from).len() implies 0 <= (#[trigger] item_blocks(s, from)[k]).0 <= item_blocks(s, from)[k].1 <= s.len() by {
                    if k > 0 {
                        assert(item_blocks(s, from)[k] == rest[k - 1]);
                    }
                }
            }
        }
    }
}

} // verus!
