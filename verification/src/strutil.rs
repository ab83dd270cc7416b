//! Verified string helpers: whitespace trimming, comma splitting and joining,
//! substring search, and decimal rendering. The container's whole command
//! protocol is plain text, so these carry most of the fixture's parsing and
//! formatting logic.
use vstd::prelude::*;

verus! {

/// The views of a vector of strings, as a sequence of character sequences.
pub open spec fn views_of(v: Seq<String>) -> Seq<Seq<char>> {
    v.map_values(|s: String| s@)
}

/// No two entries of the sequence are equal.
pub open spec fn all_distinct(q: Seq<Seq<char>>) -> bool {
    forall|i: int, j: int| 0 <= i < j < q.len() ==> q[i] != q[j]
}

/// Copies a vector of strings, keeping every view.
pub fn clone_string_vec(v: &Vec<String>) -> (r: Vec<String>)
    ensures
        views_of(r@) == views_of(v@),
        r@.len() == v@.len(),
{
    let mut out: Vec<String> = Vec::new();
    let mut i: usize = 0;
    while i < v.len()
        invariant
            i <= v@.len(),
            out@.len() == i,
            forall|j: int| 0 <= j < i ==> out@[j]@ == v@[j]@,
        decreases v@.len() - i,
    {
        out.push(v[i].clone());
        i = i + 1;
    }
    proof {
        assert(views_of(out@) =~= views_of(v@));
    }
    out
}

/// Membership test by string value.
pub fn contains_string(v: &Vec<String>, x: &String) -> (r: bool)
    ensures
        r == views_of(v@).contains(x@),
{
    let mut i: usize = 0;
    while i < v.len()
        invariant
            i <= v@.len(),
            forall|j: int| 0 <= j < i ==> views_of(v@)[j] != x@,
        decreases v@.len() - i,
    {
        if v[i] == *x {
            proof {
                assert(views_of(v@)[i as int] == x@);
            }
            return true;
        }
        i = i + 1;
    }
    false
}

/// The sequence with later repetitions of an entry dropped: each entry keeps
/// its first occurrence only.
pub open spec fn dedup_spec(q: Seq<Seq<char>>) -> Seq<Seq<char>>
    decreases q.len(),
{
    if q.len() == 0 {
        Seq::<Seq<char>>::empty()
    } else if q.drop_last().contains(q.last()) {
        dedup_spec(q.drop_last())
    } else {
        dedup_spec(q.drop_last()).push(q.last())
    }
}

/// Dropping repetitions keeps exactly the entries of the input.
pub proof fn lemma_dedup_membership(q: Seq<Seq<char>>)
    ensures
        forall|x: Seq<char>| #[trigger] dedup_spec(q).contains(x) <==> q.contains(x),
    decreases q.len(),
{
    if q.len() > 0 {
        let p = q.drop_last();
        let l = q.last();
        lemma_dedup_membership(p);
        assert forall|x: Seq<char>| q.contains(x) <==> (p.contains(x) || x == l) by {
            if q.contains(x) {
                let i = choose|i: int| 0 <= i < q.len() && q[i] == x;
                if i < q.len() - 1 {
                    assert(p[i] == x);
                }
            }
            if p.contains(x) {
                let i = choose|i: int| 0 <= i < p.len() && p[i] == x;
                assert(q[i] == x);
            }
            if x == l {
                assert(q[q.len() - 1] == x);
            }
        }
        if !p.contains(l) {
            let d = dedup_spec(p);
            assert forall|x: Seq<char>| #[trigger] d.push(l).contains(x) <==> (d.contains(x) || x
                == l) by {
                if d.push(l).contains(x) {
                    let i = choose|i: int| 0 <= i < d.push(l).len() && d.push(l)[i] == x;
                    if i < d.len() {
                        assert(d[i] == x);
                    }
                }
                if d.contains(x) {
                    let i = choose|i: int| 0 <= i < d.len() && d[i] == x;
                    assert(d.push(l)[i] == x);
                }
                if x == l {
                    assert(d.push(l)[d.len() as int] == x);
                }
            }
        }
        assert forall|x: Seq<char>| #[trigger] dedup_spec(q).contains(x) <==> q.contains(x) by {
            assert(dedup_spec(p).contains(x) <==> p.contains(x));
            assert(q.contains(x) <==> (p.contains(x) || x == l));
        }
    }
}

/// Dropping repetitions leaves no two equal entries.
pub proof fn lemma_dedup_distinct(q: Seq<Seq<char>>)
    ensures
        all_distinct(dedup_spec(q)),
    decreases q.len(),
{
    if q.len() > 0 {
        let p = q.drop_last();
        let l = q.last();
        lemma_dedup_distinct(p);
        if !p.contains(l) {
            let d = dedup_spec(p);
            lemma_dedup_membership(p);
            assert(!d.contains(l));
            assert forall|i: int, j: int| 0 <= i < j < d.push(l).len() implies d.push(l)[i]
                != d.push(l)[j] by {
                if j == d.len() {
                    if d[i] == l {
                        assert(d.contains(l));
                    }
                } else {
                    assert(d[i] != d[j]);
                }
            }
        }
    }
}

/// Copies a vector of strings, keeping of each value its first occurrence
/// only.
pub fn dedup_strings(v: &Vec<String>) -> (r: Vec<String>)
    ensures
        views_of(r@) == dedup_spec(views_of(v@)),
        all_distinct(views_of(r@)),
{
    let mut out: Vec<String> = Vec::new();
    let mut i: usize = 0;
    proof {
        assert(views_of(v@).take(0) =~= Seq::<Seq<char>>::empty());
        assert(views_of(out@) =~= dedup_spec(views_of(v@).take(0)));
    }
    while i < v.len()
        invariant
            i <= v@.len(),
            views_of(out@) == dedup_spec(views_of(v@).take(i as int)),
        decreases v@.len() - i,
    {
        let ghost done = views_of(v@).take(i as int);
        let ghost next = views_of(v@).take(i + 1);
        proof {
            assert(next.drop_last() =~= done);
            assert(next.last() == v@[i as int]@);
            lemma_dedup_membership(done);
        }
        let present = contains_string(&out, &v[i]);
        if !present {
            let ghost prev = out@;
            out.push(v[i].clone());
            proof {
                assert(views_of(out@) =~= views_of(prev).push(v@[i as int]@));
            }
        }
        i = i + 1;
    }
    proof {
        assert(views_of(v@).take(v@.len() as int) =~= views_of(v@));
        lemma_dedup_distinct(views_of(v@));
    }
    out
}

/// Joins a directory and a name with a single slash.
pub fn path_join(base: &str, name: &str) -> (r: String)
    ensures
        r@ == base@ + seq!['/'] + name@,
{
    proof {
        reveal_strlit("/");
    }
    let mut s = base.to_owned();
    s.append("/");
    s.append(name);
    s
}

/// Whitespace as the roster parser understands it: the four ASCII whitespace
/// characters that shell output carries. Deliberately narrower than Unicode
/// whitespace; an exotic whitespace character stays part of a field.
pub open spec fn is_wspace(c: char) -> bool {
    c == ' ' || c == '\n' || c == '\t' || c == '\r'
}

pub open spec fn trim_start_spec(s: Seq<char>) -> Seq<char>
    decreases s.len(),
{
    if s.len() > 0 && is_wspace(s[0]) {
        trim_start_spec(s.drop_first())
    } else {
        s
    }
}

pub open spec fn trim_end_spec(s: Seq<char>) -> Seq<char>
    decreases s.len(),
{
    if s.len() > 0 && is_wspace(s.last()) {
        trim_end_spec(s.drop_last())
    } else {
        s
    }
}

/// A string with leading and trailing whitespace removed.
pub open spec fn trim_spec(s: Seq<char>) -> Seq<char> {
    trim_end_spec(trim_start_spec(s))
}

proof fn lemma_trim_start_skip(s: Seq<char>, a: int)
    requires
        0 <= a <= s.len(),
        forall|j: int| 0 <= j < a ==> is_wspace(s[j]),
        a < s.len() ==> !is_wspace(s[a]),
    ensures
        trim_start_spec(s) == s.skip(a),
    decreases a,
{
    if a == 0 {
        assert(s.skip(0) =~= s);
    } else {
        lemma_trim_start_skip(s.drop_first(), a - 1);
        assert(s.drop_first().skip(a - 1) =~= s.skip(a));
    }
}

proof fn lemma_trim_end_take(s: Seq<char>, b: int)
    requires
        0 <= b <= s.len(),
        forall|j: int| b <= j < s.len() ==> is_wspace(s[j]),
        b > 0 ==> !is_wspace(s[b - 1]),
    ensures
        trim_end_spec(s) == s.take(b),
    decreases s.len(),
{
    if b == s.len() {
        assert(s.take(b) =~= s);
    } else {
        lemma_trim_end_take(s.drop_last(), b);
        assert(s.drop_last().take(b) =~= s.take(b));
    }
}

/// Strips leading and trailing whitespace characters.
pub fn trim_ws<'a>(s: &'a str) -> (r: &'a str)
    ensures
        r@ == trim_spec(s@),
{
    let len: usize = s.unicode_len();
    let mut a: usize = 0;
    while a < len && is_wspace_exec(s.get_char(a))
        invariant
            len == s@.len(),
            a <= len,
            forall|j: int| 0 <= j < a ==> is_wspace(s@[j]),
        decreases len - a,
    {
        a = a + 1;
    }
    let mut b: usize = len;
    while b > a && is_wspace_exec(s.get_char(b - 1))
        invariant
            len == s@.len(),
            a <= b <= len,
            forall|j: int| 0 <= j < a ==> is_wspace(s@[j]),
            forall|j: int| b <= j < len ==> is_wspace(s@[j]),
        decreases b,
    {
        b = b - 1;
    }
    let r = s.substring_char(a, b);
    proof {
        lemma_trim_start_skip(s@, a as int);
        let t = s@.skip(a as int);
        lemma_trim_end_take(t, b - a);
        assert(t.take(b - a) =~= s@.subrange(a as int, b as int));
    }
    r
}

fn is_wspace_exec(c: char) -> (r: bool)
    ensures
        r == is_wspace(c),
{
    c == ' ' || c == '\n' || c == '\t' || c == '\r'
}

/// The comma-separated rendering of a list of fields: the inverse view of
/// splitting on commas.
pub open spec fn join_commas(parts: Seq<Seq<char>>) -> Seq<char>
    decreases parts.len(),
{
    if parts.len() == 0 {
        Seq::<char>::empty()
    } else if parts.len() == 1 {
        parts[0]
    } else {
        parts[0] + seq![','] + join_commas(parts.drop_first())
    }
}

pub proof fn lemma_join_push(parts: Seq<Seq<char>>, last: Seq<char>)
    ensures
        parts.len() == 0 ==> join_commas(parts.push(last)) == last,
        parts.len() > 0 ==> join_commas(parts.push(last)) == join_commas(parts) + seq![','] + last,
    decreases parts.len(),
{
    if parts.len() == 0 {
        assert(parts.push(last)[0] == last);
    } else if parts.len() == 1 {
        assert(parts.push(last).drop_first() =~= seq![last]);
        assert(parts.push(last)[0] == parts[0]);
        assert(join_commas(seq![last]) == last);
        assert(join_commas(parts.push(last)) == parts[0] + seq![','] + last);
    } else {
        lemma_join_push(parts.drop_first(), last);
        assert(parts.push(last).drop_first() =~= parts.drop_first().push(last));
    }
}

/// Splits on every comma; adjacent commas yield empty fields, and the whole
/// input is recovered by joining the fields with commas again.
pub fn split_commas(s: &str) -> (r: Vec<String>)
    ensures
        r@.len() >= 1,
        join_commas(views_of(r@)) == s@,
        forall|k: int| 0 <= k < r@.len() ==> !r@[k]@.contains(','),
{
    let len: usize = s.unicode_len();
    let mut out: Vec<String> = Vec::new();
    let mut start: usize = 0;
    let mut i: usize = 0;
    while i < len
        invariant
            len == s@.len(),
            start <= i <= len,
            join_commas(views_of(out@).push(s@.subrange(start as int, i as int))) == s@.take(i as int),
            forall|k: int| 0 <= k < out@.len() ==> !out@[k]@.contains(','),
            forall|j: int| start <= j < i ==> s@[j] != ',',
        decreases len - i,
    {
        let ghost prev = views_of(out@);
        let ghost cur = s@.subrange(start as int, i as int);
        let c = s.get_char(i);
        if c == ',' {
            let tok = s.substring_char(start, i);
            let tok_owned = tok.to_owned();
            out.push(tok_owned);
            start = i + 1;
            proof {
                assert(views_of(out@) =~= prev.push(cur));
                let empty_next = s@.subrange(start as int, (i + 1) as int);
                assert(empty_next =~= Seq::<char>::empty());
                lemma_join_push(prev.push(cur), empty_next);
                lemma_join_push(prev, cur);
                if prev.len() == 0 {
                    assert(join_commas(prev.push(cur)) == cur);
                } else {
                    assert(join_commas(prev.push(cur)) == join_commas(prev) + seq![','] + cur);
                }
                assert(join_commas(views_of(out@).push(empty_next)) =~= s@.take(i as int) + seq![
                    ',',
                ] + empty_next);
                assert(s@.take(i as int) + seq![','] + empty_next =~= s@.take((i + 1) as int));
                assert(forall|j: int| 0 <= j < cur.len() ==> cur[j] != ',');
            }
        } else {
            proof {
                let cur2 = s@.subrange(start as int, (i + 1) as int);
                assert(cur2 =~= cur + seq![s@[i as int]]);
                lemma_join_push(prev, cur);
                lemma_join_push(prev, cur2);
                if prev.len() == 0 {
                    assert(join_commas(prev.push(cur2)) =~= s@.take(i as int) + seq![s@[i as int]]);
                } else {
                    assert(join_commas(prev.push(cur2)) =~= s@.take(i as int) + seq![s@[i as int]]);
                }
                assert(s@.take(i as int) + seq![s@[i as int]] =~= s@.take((i + 1) as int));
            }
        }
        i = i + 1;
    }
    let tok = s.substring_char(start, len);
    let tok_owned = tok.to_owned();
    let ghost prev = views_of(out@);
    let ghost cur = s@.subrange(start as int, len as int);
    out.push(tok_owned);
    proof {
        assert(views_of(out@) =~= prev.push(cur));
        assert(s@.take(len as int) =~= s@);
        assert(forall|j: int| 0 <= j < cur.len() ==> cur[j] != ',');
    }
    out
}

/// Comma-free fields are pinned down by their comma-joined rendering: any two
/// field lists with the same rendering are the same list. In particular, every
/// initializer that observes the same roster output observes the identical
/// roster.
pub proof fn lemma_join_injective(r1: Seq<Seq<char>>, r2: Seq<Seq<char>>)
    requires
        r1.len() >= 1,
        r2.len() >= 1,
        join_commas(r1) == join_commas(r2),
        forall|k: int| 0 <= k < r1.len() ==> !(#[trigger] r1[k]).contains(','),
        forall|k: int| 0 <= k < r2.len() ==> !(#[trigger] r2[k]).contains(','),
    ensures
        r1 == r2,
    decreases r1.len(),
{
    let j = join_commas(r1);
    if r1.len() == 1 && r2.len() == 1 {
        assert(r1 =~= r2);
    } else if r1.len() == 1 {
        let head = r2[0];
        assert(j == head + seq![','] + join_commas(r2.drop_first()));
        assert(j[head.len() as int] == ',');
        assert(r1[0].contains(','));
    } else if r2.len() == 1 {
        let head = r1[0];
        assert(j == head + seq![','] + join_commas(r1.drop_first()));
        assert(j[head.len() as int] == ',');
        assert(r2[0].contains(','));
    } else {
        let a = r1[0];
        let b = r2[0];
        let t1 = join_commas(r1.drop_first());
        let t2 = join_commas(r2.drop_first());
        assert(j == a + seq![','] + t1);
        assert(j == b + seq![','] + t2);
        if a.len() < b.len() {
            assert(j[a.len() as int] == ',');
            assert(b[a.len() as int] == ',');
            assert(b.contains(','));
        } else if b.len() < a.len() {
            assert(j[b.len() as int] == ',');
            assert(a[b.len() as int] == ',');
            assert(a.contains(','));
        }
        assert(a.len() == b.len());
        assert forall|i: int| 0 <= i < a.len() implies a[i] == b[i] by {
            assert(j[i] == ((a + seq![',']) + t1)[i]);
            assert(((a + seq![',']) + t1)[i] == a[i]);
            assert(j[i] == ((b + seq![',']) + t2)[i]);
            assert(((b + seq![',']) + t2)[i] == b[i]);
        }
        assert(a =~= b);
        assert(t1 =~= j.skip(a.len() as int + 1));
        assert(t2 =~= j.skip(b.len() as int + 1));
        assert(forall|k: int|
            0 <= k < r1.drop_first().len() ==> !(#[trigger] r1.drop_first()[k]).contains(','));
        assert(forall|k: int|
            0 <= k < r2.drop_first().len() ==> !(#[trigger] r2.drop_first()[k]).contains(','));
        lemma_join_injective(r1.drop_first(), r2.drop_first());
        assert forall|i: int| 0 <= i < r1.len() implies r1[i] == r2[i] by {
            if i == 0 {
                assert(r1[0] == r2[0]);
            } else {
                assert(r1.drop_first()[i - 1] == r2.drop_first()[i - 1]);
            }
        }
        assert(r1 =~= r2);
    }
}

/// Does `h` contain `n` as a contiguous run of characters?
pub open spec fn contains_seq(h: Seq<char>, n: Seq<char>) -> bool {
    exists|i: int| 0 <= i <= h.len() - n.len() && #[trigger] h.subrange(i, i + n.len()) == n
}

fn match_at(h: &str, n: &str, i: usize, nl: usize) -> (r: bool)
    requires
        nl == n@.len(),
        i + nl <= h@.len(),
        i + nl <= usize::MAX,
    ensures
        r == (h@.subrange(i as int, i as int + nl as int) == n@),
{
    let mut j: usize = 0;
    while j < nl
        invariant
            nl == n@.len(),
            i + nl <= h@.len(),
            i + nl <= usize::MAX,
            j <= nl,
            forall|jj: int| 0 <= jj < j ==> h@[i + jj] == n@[jj],
        decreases nl - j,
    {
        if h.get_char(i + j) != n.get_char(j) {
            proof {
                assert(h@.subrange(i as int, i as int + nl as int)[j as int] != n@[j as int]);
            }
            return false;
        }
        j = j + 1;
    }
    proof {
        assert(h@.subrange(i as int, i as int + nl as int) =~= n@);
    }
    true
}

/// Substring search over characters.
pub fn str_contains(h: &str, n: &str) -> (r: bool)
    ensures
        r == contains_seq(h@, n@),
{
    let hl: usize = h.unicode_len();
    let nl: usize = n.unicode_len();
    if nl > hl {
        return false;
    }
    if nl == 0 {
        proof {
            assert(h@.subrange(0, 0 + n@.len() as int) =~= n@);
            assert(contains_seq(h@, n@));
        }
        return true;
    }
    let bound: usize = hl - nl;
    let mut i: usize = 0;
    while i <= bound
        invariant
            hl == h@.len(),
            nl == n@.len(),
            1 <= nl <= hl,
            bound == hl - nl,
            i <= bound + 1,
            forall|ii: int| 0 <= ii < i ==> #[trigger] h@.subrange(ii, ii + nl as int) != n@,
        decreases bound + 1 - i,
    {
        if match_at(h, n, i, nl) {
            return true;
        }
        i = i + 1;
    }
    false
}

/// The character for one decimal digit.
pub open spec fn digit_spec(d: nat) -> char {
    if d == 0 {
        '0'
    } else if d == 1 {
        '1'
    } else if d == 2 {
        '2'
    } else if d == 3 {
        '3'
    } else if d == 4 {
        '4'
    } else if d == 5 {
        '5'
    } else if d == 6 {
        '6'
    } else if d == 7 {
        '7'
    } else if d == 8 {
        '8'
    } else {
        '9'
    }
}

/// The usual decimal rendering of a number, most significant digit first.
pub open spec fn dec_rep(n: nat) -> Seq<char>
    decreases n,
{
    if n < 10 {
        seq![digit_spec(n)]
    } else {
        dec_rep(n / 10).push(digit_spec(n % 10))
    }
}

fn digit_str(d: u16) -> (r: &'static str)
    requires
        d < 10,
    ensures
        r@ == seq![digit_spec(d as nat)],
{
    proof {
        reveal_strlit("0");
        reveal_strlit("1");
        reveal_strlit("2");
        reveal_strlit("3");
        reveal_strlit("4");
        reveal_strlit("5");
        reveal_strlit("6");
        reveal_strlit("7");
        reveal_strlit("8");
        reveal_strlit("9");
    }
    if d == 0 {
        "0"
    } else if d == 1 {
        "1"
    } else if d == 2 {
        "2"
    } else if d == 3 {
        "3"
    } else if d == 4 {
        "4"
    } else if d == 5 {
        "5"
    } else if d == 6 {
        "6"
    } else if d == 7 {
        "7"
    } else if d == 8 {
        "8"
    } else {
        "9"
    }
}

/// Renders a port number in decimal.
pub fn u16_dec(n: u16) -> (r: String)
    ensures
        r@ == dec_rep(n as nat),
    decreases n,
{
    if n < 10 {
        digit_str(n).to_owned()
    } else {
        proof {
            assert(n / 10 < n) by (nonlinear_arith)
                requires
                    n >= 10,
            ;
        }
        let mut s = u16_dec(n / 10);
        s.append(digit_str(n % 10));
        proof {
            assert(dec_rep((n / 10) as nat) + seq![digit_spec((n % 10) as nat)] =~= dec_rep(
                n as nat,
            ));
        }
        s
    }
}

/// Concatenation of a list of pieces in list order: the content that ordered,
/// append-mode application of the pieces reconstructs.
pub open spec fn concat_all(parts: Seq<Seq<char>>) -> Seq<char>
    decreases parts.len(),
{
    if parts.len() == 0 {
        Seq::<char>::empty()
    } else {
        concat_all(parts.drop_last()) + parts.last()
    }
}

pub proof fn lemma_concat_push(parts: Seq<Seq<char>>, last: Seq<char>)
    ensures
        concat_all(parts.push(last)) == concat_all(parts) + last,
{
    assert(parts.push(last).drop_last() =~= parts);
}

} // verus!
