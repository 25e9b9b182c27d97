//! Character-level string operations used by the protocol code, each tied to a
//! spec function over `Seq<char>`.
use vstd::prelude::*;

verus! {

/// The character views of a sequence of strings.
pub open spec fn views(v: Seq<String>) -> Seq<Seq<char>> {
    v.map_values(|x: String| x@)
}

/// The character views of a sequence of borrowed strings.
pub open spec fn str_views(v: Seq<&str>) -> Seq<Seq<char>> {
    v.map_values(|x: &str| x@)
}

/// The view of an optional string.
pub open spec fn opt_view(o: Option<String>) -> Option<Seq<char>> {
    match o {
        Some(s) => Some(s@),
        None => None,
    }
}

/// A character whose UTF-8 encoding is a single byte.
pub open spec fn is_one_byte(c: char) -> bool {
    (c as u32) < 128
}

/// `s[1..]` on a Rust string is defined (does not panic) exactly when `s` is
/// non-empty and its first character is encoded in one byte.
pub open spec fn can_drop_first_byte(s: Seq<char>) -> bool {
    s.len() >= 1 && is_one_byte(s[0])
}

/// Splitting on a single separator character, as `str::split(sep)` does:
/// `n` separators give `n + 1` pieces, the empty string gives one empty piece.
pub open spec fn split_on(s: Seq<char>, sep: char) -> Seq<Seq<char>>
    decreases s.len(),
{
    if s.len() == 0 {
        seq![Seq::<char>::empty()]
    } else {
        let p = split_on(s.drop_last(), sep);
        if s.last() == sep {
            p.push(Seq::<char>::empty())
        } else {
            p.update(p.len() - 1, p.last().push(s.last()))
        }
    }
}

/// Joining pieces with a separator, as `[String]::join(sep)` does.
pub open spec fn join_with(parts: Seq<Seq<char>>, sep: Seq<char>) -> Seq<char>
    decreases parts.len(),
{
    if parts.len() == 0 {
        Seq::<char>::empty()
    } else if parts.len() == 1 {
        parts[0]
    } else {
        join_with(parts.drop_last(), sep) + sep + parts.last()
    }
}

/// The index of the first occurrence of `c` in `s`.
pub open spec fn find_first(s: Seq<char>, c: char) -> Option<int>
    decreases s.len(),
{
    if s.len() == 0 {
        None
    } else if s[0] == c {
        Some(0)
    } else {
        match find_first(s.drop_first(), c) {
            Some(i) => Some(i + 1),
            None => None,
        }
    }
}

pub proof fn lemma_split_on_nonempty(s: Seq<char>, sep: char)
    ensures
        split_on(s, sep).len() >= 1,
    decreases s.len(),
{
    if s.len() > 0 {
        lemma_split_on_nonempty(s.drop_last(), sep);
    }
}

proof fn lemma_join_push(parts: Seq<Seq<char>>, sep: Seq<char>, x: Seq<char>)
    requires
        parts.len() >= 1,
    ensures
        join_with(parts.push(x), sep) == join_with(parts, sep) + sep + x,
{
    assert(parts.push(x).drop_last() =~= parts);
}

pub proof fn lemma_join_extend_last(parts: Seq<Seq<char>>, sep: Seq<char>, c: char)
    requires
        parts.len() >= 1,
    ensures
        join_with(parts.update(parts.len() - 1, parts.last().push(c)), sep) == join_with(
            parts,
            sep,
        ).push(c),
{
    let q = parts.update(parts.len() - 1, parts.last().push(c));
    if parts.len() == 1 {
        assert(q[0] == parts[0].push(c));
    } else {
        assert(q.drop_last() =~= parts.drop_last());
        assert(q.last() == parts.last().push(c));
        assert(join_with(q, sep) == join_with(parts.drop_last(), sep) + sep + parts.last().push(
            c,
        ));
        assert(join_with(parts.drop_last(), sep) + sep + parts.last().push(c) =~= (join_with(
            parts.drop_last(),
            sep,
        ) + sep + parts.last()).push(c));
    }
}

/// A join is the first piece, then (when there are more) the separator and
/// the join of the others.
pub proof fn lemma_join_front(parts: Seq<Seq<char>>, sep: Seq<char>)
    requires
        parts.len() >= 1,
    ensures
        join_with(parts, sep) == parts[0] + (if parts.len() > 1 {
            sep + join_with(parts.drop_first(), sep)
        } else {
            Seq::<char>::empty()
        }),
    decreases parts.len(),
{
    if parts.len() == 1 {
        assert(parts[0] + Seq::<char>::empty() =~= parts[0]);
    } else if parts.len() == 2 {
        assert(parts.drop_last() =~= seq![parts[0]]);
        assert(parts.drop_first() =~= seq![parts[1]]);
        assert(join_with(parts.drop_last(), sep) == parts[0]);
        assert(join_with(parts.drop_first(), sep) == parts[1]);
        assert(join_with(parts, sep) == parts[0] + sep + parts[1]);
        assert(parts[0] + sep + parts[1] =~= parts[0] + (sep + parts[1]));
    } else {
        let d = parts.drop_last();
        lemma_join_front(d, sep);
        assert(join_with(parts, sep) == join_with(d, sep) + sep + parts.last());
        assert(d[0] == parts[0]);
        assert(d.drop_first() =~= parts.drop_first().drop_last());
        assert(parts.drop_first().last() == parts.last());
        assert(join_with(parts.drop_first(), sep) == join_with(d.drop_first(), sep) + sep + parts.last());
        assert(parts[0] + (sep + join_with(d.drop_first(), sep)) + sep + parts.last() =~= parts[0] + (
        sep + (join_with(d.drop_first(), sep) + sep + parts.last())));
    }
}

/// Joining the pieces of a split with the separator gives back the string.
pub proof fn law_split_join(s: Seq<char>, sep: char)
    ensures
        join_with(split_on(s, sep), seq![sep]) == s,
    decreases s.len(),
{
    if s.len() == 0 {
        assert(join_with(split_on(s, sep), seq![sep]) =~= s);
    } else {
        let p = split_on(s.drop_last(), sep);
        law_split_join(s.drop_last(), sep);
        lemma_split_on_nonempty(s.drop_last(), sep);
        if s.last() == sep {
            lemma_join_push(p, seq![sep], Seq::<char>::empty());
            assert(join_with(p, seq![sep]) + seq![sep] + Seq::<char>::empty() =~= s);
        } else {
            lemma_join_extend_last(p, seq![sep], s.last());
            assert(s.drop_last().push(s.last()) =~= s);
        }
    }
}

/// No piece of a split holds the separator.
pub proof fn law_split_pieces_lack_sep(s: Seq<char>, sep: char)
    ensures
        forall|i: int|
            0 <= i < split_on(s, sep).len() ==> !(#[trigger] split_on(s, sep)[i]).contains(sep),
    decreases s.len(),
{
    if s.len() > 0 {
        let p = split_on(s.drop_last(), sep);
        law_split_pieces_lack_sep(s.drop_last(), sep);
        lemma_split_on_nonempty(s.drop_last(), sep);
        if s.last() != sep {
            let q = split_on(s, sep);
            assert forall|i: int| 0 <= i < q.len() implies !(#[trigger] q[i]).contains(sep) by {
                if i == q.len() - 1 {
                    let l = p.last().push(s.last());
                    assert(q[i] == l);
                    if l.contains(sep) {
                        let k = choose|k: int| 0 <= k < l.len() && l[k] == sep;
                        if k < p.last().len() {
                            assert(p.last()[k] == sep);
                            assert(p[p.len() - 1].contains(sep));
                        }
                    }
                } else {
                    assert(q[i] == p[i]);
                }
            }
        } else {
            let q = split_on(s, sep);
            assert forall|i: int| 0 <= i < q.len() implies !(#[trigger] q[i]).contains(sep) by {
                if i < p.len() {
                    assert(q[i] == p[i]);
                }
            }
        }
    }
}

/// Text without the separator is a single piece.
pub proof fn law_split_plain(w: Seq<char>, sep: char)
    requires
        !w.contains(sep),
    ensures
        split_on(w, sep) == seq![w],
    decreases w.len(),
{
    if w.len() == 0 {
        assert(w =~= Seq::<char>::empty());
    } else {
        let d = w.drop_last();
        assert(!d.contains(sep)) by {
            if d.contains(sep) {
                let j = choose|j: int| 0 <= j < d.len() && d[j] == sep;
                assert(w[j] == d[j]);
            }
        }
        law_split_plain(d, sep);
        assert(w[w.len() - 1] != sep);
        assert(d.push(w.last()) =~= w);
        assert(seq![d].update(0, d.push(w.last())) =~= seq![w]);
    }
}

/// Splitting at a separator: the pieces of what stands before it, then the
/// pieces of what follows it.
pub proof fn law_split_at_sep(a: Seq<char>, b: Seq<char>, sep: char)
    ensures
        split_on(a.push(sep) + b, sep) == split_on(a, sep) + split_on(b, sep),
    decreases b.len(),
{
    let p = split_on(a, sep);
    if b.len() == 0 {
        assert(a.push(sep) + b =~= a.push(sep));
        assert(a.push(sep).drop_last() =~= a);
        assert(p.push(Seq::<char>::empty()) =~= p + seq![Seq::<char>::empty()]);
    } else {
        let s = a.push(sep) + b;
        law_split_at_sep(a, b.drop_last(), sep);
        assert(s.drop_last() =~= a.push(sep) + b.drop_last());
        assert(s.last() == b.last());
        lemma_split_on_nonempty(b.drop_last(), sep);
        let q = split_on(b.drop_last(), sep);
        if b.last() == sep {
            assert((p + q).push(Seq::<char>::empty()) =~= p + q.push(Seq::<char>::empty()));
        } else {
            assert((p + q).update((p + q).len() - 1, (p + q).last().push(b.last())) =~= p
                + q.update(q.len() - 1, q.last().push(b.last())));
        }
    }
}

/// Character-wise equality of two strings.
pub fn str_eq(a: &str, b: &str) -> (r: bool)
    ensures
        r == (a@ == b@),
{
    let n = a.unicode_len();
    let m = b.unicode_len();
    if n != m {
        return false;
    }
    let mut i: usize = 0;
    while i < n
        invariant
            n == a@.len(),
            m == b@.len(),
            n == m,
            i <= n,
            forall|j: int| 0 <= j < i ==> a@[j] == b@[j],
        decreases n - i,
    {
        if a.get_char(i) != b.get_char(i) {
            return false;
        }
        i += 1;
    }
    assert(a@ =~= b@);
    true
}

/// `s[1..]`, for a string whose first character is one byte long.
pub fn drop_first_char(s: &str) -> (r: String)
    requires
        can_drop_first_byte(s@),
    ensures
        r@ == s@.drop_first(),
{
    let n = s.unicode_len();
    let t = s.substring_char(1, n);
    let r = t.to_owned();
    assert(r@ =~= s@.drop_first());
    r
}

/// `s.split(sep)` with each piece owned.
pub fn split_on_char(s: &str, sep: char) -> (r: Vec<String>)
    ensures
        views(r@) == split_on(s@, sep),
{
    let n = s.unicode_len();
    let mut pieces: Vec<String> = Vec::new();
    let mut start: usize = 0;
    let mut i: usize = 0;
    assert(s@.take(0) =~= Seq::<char>::empty());
    assert(views(pieces@).push(s@.subrange(0, 0)) =~= split_on(s@.take(0), sep));
    while i < n
        invariant
            n == s@.len(),
            start <= i <= n,
            views(pieces@).push(s@.subrange(start as int, i as int)) == split_on(
                s@.take(i as int),
                sep,
            ),
        decreases n - i,
    {
        let c = s.get_char(i);
        let ghost t = s@.take(i + 1);
        assert(t.drop_last() =~= s@.take(i as int));
        assert(t.last() == c);
        let ghost old_pieces = views(pieces@);
        let ghost old_start = start;
        if c == sep {
            let piece = s.substring_char(start, i).to_owned();
            pieces.push(piece);
            start = i + 1;
            assert(views(pieces@) =~= old_pieces.push(s@.subrange(old_start as int, i as int)));
            assert(s@.subrange(start as int, i + 1) =~= Seq::<char>::empty());
            assert(split_on(t, sep) == split_on(s@.take(i as int), sep).push(Seq::<char>::empty()));
            assert(views(pieces@).push(s@.subrange(start as int, i + 1)) =~= split_on(t, sep));
        } else {
            let ghost p = old_pieces.push(s@.subrange(start as int, i as int));
            assert(s@.subrange(start as int, i as int).push(c) =~= s@.subrange(start as int, i + 1));
            assert(p.update(p.len() - 1, p.last().push(c)) =~= old_pieces.push(
                s@.subrange(start as int, i + 1),
            ));
        }
        i += 1;
    }
    let last = s.substring_char(start, n).to_owned();
    let ghost before = views(pieces@);
    pieces.push(last);
    assert(s@.take(n as int) =~= s@);
    assert(views(pieces@) =~= before.push(s@.subrange(start as int, n as int)));
    pieces
}

/// `list[from..].join(sep)`.
pub fn join_from(list: &Vec<String>, from: usize, sep: &str) -> (r: String)
    requires
        from <= list@.len(),
    ensures
        r@ == join_with(views(list@).skip(from as int), sep@),
{
    let n = list.len();
    let mut res = String::new();
    let mut i: usize = from;
    assert(views(list@).subrange(from as int, from as int) =~= Seq::<Seq<char>>::empty());
    while i < n
        invariant
            n == list@.len(),
            from <= i <= n,
            res@ == join_with(views(list@).subrange(from as int, i as int), sep@),
        decreases n - i,
    {
        let ghost prev = views(list@).subrange(from as int, i as int);
        let ghost next = views(list@).subrange(from as int, i + 1);
        assert(next.drop_last() =~= prev);
        assert(next.last() == list@[i as int]@);
        if i != from {
            res.append(sep);
        }
        res.append(list[i].as_str());
        if i == from {
            assert(res@ =~= join_with(next, sep@));
        }
        i += 1;
    }
    assert(views(list@).subrange(from as int, n as int) =~= views(list@).skip(from as int));
    res
}

/// `list.join(sep)`.
pub fn join_all(list: &Vec<String>, sep: &str) -> (r: String)
    ensures
        r@ == join_with(views(list@), sep@),
{
    let r = join_from(list, 0, sep);
    assert(views(list@).skip(0) =~= views(list@));
    r
}

/// `s.find(c)`, counted in characters.
pub fn find_char(s: &str, c: char) -> (r: Option<usize>)
    ensures
        match r {
            Some(i) => find_first(s@, c) == Some(i as int) && i < s@.len(),
            None => find_first(s@, c) is None,
        },
{
    let n = s.unicode_len();
    let mut i: usize = 0;
    assert(s@.skip(0) =~= s@);
    while i < n
        invariant
            n == s@.len(),
            i <= n,
            find_first(s@, c) == match find_first(s@.skip(i as int), c) {
                Some(j) => Some(j + i),
                None => None,
            },
        decreases n - i,
    {
        assert(s@.skip(i as int).drop_first() =~= s@.skip(i + 1));
        if s.get_char(i) == c {
            return Some(i);
        }
        i += 1;
    }
    assert(s@.skip(n as int) =~= Seq::<char>::empty());
    None
}

/// The first `k` characters of `s`.
pub fn take_chars(s: &str, k: usize) -> (r: String)
    requires
        k <= s@.len(),
    ensures
        r@ == s@.take(k as int),
{
    let t = s.substring_char(0, k);
    let r = t.to_owned();
    assert(r@ =~= s@.take(k as int));
    r
}

/// Owned copies of borrowed strings.
pub fn owned_strings(v: &Vec<&str>) -> (r: Vec<String>)
    ensures
        views(r@) == str_views(v@),
{
    let mut r: Vec<String> = Vec::new();
    let n = v.len();
    let mut i: usize = 0;
    while i < n
        invariant
            n == v@.len(),
            i <= n,
            views(r@) == str_views(v@.subrange(0, i as int)),
        decreases n - i,
    {
        let ghost before = views(r@);
        r.push(v[i].to_owned());
        assert(views(r@) =~= str_views(v@.subrange(0, i + 1))) by {
            assert(str_views(v@.subrange(0, i + 1)) =~= before.push(v@[i as int]@));
        }
        i += 1;
    }
    assert(v@.subrange(0, n as int) =~= v@);
    r
}

/// Borrowed views of owned strings.
pub fn borrow_all<'a>(v: &'a Vec<String>) -> (r: Vec<&'a str>)
    ensures
        str_views(r@) == views(v@),
        r@.len() == v@.len(),
{
    let mut r: Vec<&str> = Vec::new();
    let n = v.len();
    let mut i: usize = 0;
    while i < n
        invariant
            n == v@.len(),
            i <= n,
            str_views(r@) == views(v@.subrange(0, i as int)),
            r@.len() == i,
        decreases n - i,
    {
        let ghost before = str_views(r@);
        r.push(v[i].as_str());
        assert(str_views(r@) =~= views(v@.subrange(0, i + 1))) by {
            assert(views(v@.subrange(0, i + 1)) =~= before.push(v@[i as int]@));
        }
        i += 1;
    }
    assert(v@.subrange(0, n as int) =~= v@);
    r
}

/// Copies of owned strings.
pub fn clone_strings(v: &Vec<String>) -> (r: Vec<String>)
    ensures
        views(r@) == views(v@),
{
    let mut r: Vec<String> = Vec::new();
    let n = v.len();
    let mut i: usize = 0;
    while i < n
        invariant
            n == v@.len(),
            i <= n,
            views(r@) == views(v@.subrange(0, i as int)),
        decreases n - i,
    {
        let ghost before = views(r@);
        r.push(v[i].clone());
        assert(views(r@) =~= views(v@.subrange(0, i + 1))) by {
            assert(views(v@.subrange(0, i + 1)) =~= before.push(v@[i as int]@));
        }
        i += 1;
    }
    assert(v@.subrange(0, n as int) =~= v@);
    r
}

} // verus!
