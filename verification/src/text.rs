use vstd::prelude::*;

verus! {

/// Appends one character to a string (`String::push`).
#[verifier::external_body]
pub(crate) fn push_char(s: &mut String, c: char)
    ensures
        final(s)@ == old(s)@.push(c),
{
    s.push(c);
}

/// The characters of a string slice, in order.
pub fn chars_of(s: &str) -> (res: Vec<char>)
    ensures
        res@ == s@,
{
    let mut res: Vec<char> = Vec::new();
    for c in it: s.chars()
        invariant
            res@ == it.seq().take(it.index() as int),
    {
        res.push(c);
    }
    res
}

} // verus!

verus! {

/// Whether `pat` occurs in `s` at position `i`.
pub open spec fn occurs_at(s: Seq<char>, pat: Seq<char>, i: int) -> bool {
    0 <= i && i + pat.len() <= s.len() && s.subrange(i, i + pat.len()) == pat
}

/// Whether `pat` occurs anywhere in `s`.
pub open spec fn occurs_in(s: Seq<char>, pat: Seq<char>) -> bool {
    exists|i: int| occurs_at(s, pat, i)
}

/// `s` with every occurrence of `from` replaced by `to`, the occurrences
/// taken left to right without overlap. An empty `from` matches before
/// every character and once more at the end.
pub open spec fn replace_all(s: Seq<char>, from: Seq<char>, to: Seq<char>) -> Seq<char>
    decreases s.len(),
{
    if from.len() == 0 {
        if s.len() == 0 {
            to
        } else {
            to + seq![s[0]] + replace_all(s.drop_first(), from, to)
        }
    } else if s.len() < from.len() {
        s
    } else if s.take(from.len() as int) == from {
        to + replace_all(s.skip(from.len() as int), from, to)
    } else {
        seq![s[0]] + replace_all(s.drop_first(), from, to)
    }
}

/// Whether `pat` occurs in `s` at position `i`.
fn occurs_at_exec(s: &Vec<char>, pat: &Vec<char>, i: usize) -> (res: bool)
    requires
        i <= s.len(),
    ensures
        res == occurs_at(s@, pat@, i as int),
{
    if s.len() - i < pat.len() {
        return false;
    }
    let mut k: usize = 0;
    while k < pat.len()
        invariant
            i + pat.len() <= s.len(),
            k <= pat.len(),
            forall|j: int| 0 <= j < k ==> s@[i + j] == pat@[j],
        decreases pat.len() - k,
    {
        if s[i + k] != pat[k] {
            assert(s@.subrange(i as int, i + pat.len())[k as int] != pat@[k as int]);
            return false;
        }
        k = k + 1;
    }
    assert(s@.subrange(i as int, i + pat.len()) =~= pat@);
    true
}

proof fn lemma_replace_short(s: Seq<char>, from: Seq<char>, to: Seq<char>)
    requires
        from.len() > 0,
        s.len() > 0,
        !(s.len() >= from.len() && s.take(from.len() as int) == from),
    ensures
        replace_all(s, from, to) == seq![s[0]] + replace_all(s.drop_first(), from, to),
{
    if s.len() < from.len() {
        assert(seq![s[0]] + s.drop_first() =~= s);
    }
}

/// Appends the characters of `cs` to `out`.
pub fn push_all(out: &mut String, cs: &Vec<char>)
    ensures
        final(out)@ == old(out)@ + cs@,
{
    let mut k: usize = 0;
    while k < cs.len()
        invariant
            k <= cs.len(),
            out@ == old(out)@ + cs@.take(k as int),
        decreases cs.len() - k,
    {
        push_char(out, cs[k]);
        assert(cs@.take(k + 1) =~= cs@.take(k as int).push(cs@[k as int]));
        k = k + 1;
    }
    assert(cs@.take(cs.len() as int) =~= cs@);
}

/// Replaces all matches of a pattern with another string (`str::replace`).
pub fn replace(s: &str, from: &str, to: &str) -> (res: String)
    ensures
        res@ == replace_all(s@, from@, to@),
{
    let sc = chars_of(s);
    let fc = chars_of(from);
    let tc = chars_of(to);
    let mut out = String::new();
    let n = sc.len();
    let m = fc.len();
    let mut i: usize = 0;
    assert(sc@.skip(0) =~= sc@);
    if m == 0 {
        while i < n
            invariant
                n == sc@.len(),
                m == fc@.len() == 0,
                i <= n,
                replace_all(sc@, fc@, tc@) == out@ + replace_all(sc@.skip(i as int), fc@, tc@),
            decreases n - i,
        {
            let ghost rest = sc@.skip(i as int);
            assert(rest.drop_first() =~= sc@.skip(i + 1));
            push_all(&mut out, &tc);
            push_char(&mut out, sc[i]);
            i = i + 1;
        }
        push_all(&mut out, &tc);
        assert(sc@.skip(n as int) =~= Seq::<char>::empty());
    } else {
        while i < n
            invariant
                n == sc@.len(),
                m == fc@.len() > 0,
                i <= n,
                replace_all(sc@, fc@, tc@) == out@ + replace_all(sc@.skip(i as int), fc@, tc@),
            decreases n - i,
        {
            let ghost rest = sc@.skip(i as int);
            if occurs_at_exec(&sc, &fc, i) {
                assert(rest.take(m as int) =~= sc@.subrange(i as int, i + m));
                assert(rest.skip(m as int) =~= sc@.skip(i + m));
                push_all(&mut out, &tc);
                i = i + m;
            } else {
                assert(rest.take(m as int) =~= sc@.subrange(i as int, i + m) || rest.len() < m);
                proof {
                    lemma_replace_short(rest, fc@, tc@);
                }
                assert(rest.drop_first() =~= sc@.skip(i + 1));
                push_char(&mut out, sc[i]);
                i = i + 1;
            }
        }
        assert(sc@.skip(n as int) =~= Seq::<char>::empty());
    }
    out
}

} // verus!

verus! {

/// Whether `s` holds neither brace.
pub open spec fn brace_free(s: Seq<char>) -> bool {
    !s.contains('{') && !s.contains('}')
}

/// Whether `r` opens with `{` and closes with `}`.
pub open spec fn braced(r: Seq<char>) -> bool {
    r.len() >= 2 && r[0] == '{' && r.last() == '}'
}

proof fn lemma_no_suffix(s: Seq<char>, p: Seq<char>, i: int)
    requires
        !occurs_in(s, p),
        0 <= i <= s.len(),
    ensures
        !occurs_in(s.skip(i), p),
{
    assert forall|k: int| !occurs_at(s.skip(i), p, k) by {
        if occurs_at(s.skip(i), p, k) {
            assert(s.subrange(k + i, k + i + p.len()) =~= s.skip(i).subrange(k, k + p.len()));
            assert(occurs_at(s, p, k + i));
        }
    }
}

/// A window that starts inside a copy of a braced placeholder is no
/// occurrence of a brace-free text that does not occur in the placeholder.
proof fn lemma_window_from_braced(t: Seq<char>, r: Seq<char>, q: Seq<char>, off: int, i: int)
    requires
        braced(r),
        brace_free(q),
        !occurs_in(r, q),
        0 <= off,
        off + r.len() <= t.len(),
        t.subrange(off, off + r.len()) == r,
        off <= i < off + r.len(),
    ensures
        !occurs_at(t, q, i),
{
    if occurs_at(t, q, i) {
        let w = t.subrange(i, i + q.len());
        if i + q.len() <= off + r.len() {
            assert(r.subrange(i - off, i - off + q.len()) =~= w);
            assert(occurs_at(r, q, i - off));
        } else {
            let k = off + r.len() - 1 - i;
            assert(t[off + r.len() - 1] == r[r.len() - 1]);
            assert(w[k] == t[off + r.len() - 1]);
            assert(q[k] == '}');
            assert(q.contains('}'));
        }
    }
}

proof fn lemma_untouched_prefix(s: Seq<char>, p: Seq<char>, r: Seq<char>, k: int)
    requires
        r.len() > 0,
        0 <= k <= replace_all(s, p, r).len(),
        forall|j: int| 0 <= j < k ==> #[trigger] replace_all(s, p, r)[j] != r[0],
    ensures
        k <= s.len(),
        replace_all(s, p, r).take(k) == s.take(k),
    decreases s.len(),
{
    let t = replace_all(s, p, r);
    if p.len() == 0 {
        if k > 0 {
            assert(t[0] == r[0]);
        }
        assert(t.take(k) =~= s.take(k));
    } else if s.len() < p.len() {
    } else if s.take(p.len() as int) == p {
        if k > 0 {
            assert(t[0] == r[0]);
        }
        assert(t.take(k) =~= s.take(k));
    } else {
        if k > 0 {
            let rest = replace_all(s.drop_first(), p, r);
            assert(t == seq![s[0]] + rest);
            assert forall|j: int| 0 <= j < k - 1 implies #[trigger] rest[j] != r[0] by {
                assert(t[j + 1] == rest[j]);
            }
            lemma_untouched_prefix(s.drop_first(), p, r, k - 1);
            assert(t.take(k) =~= seq![s[0]] + rest.take(k - 1));
            assert(s.take(k) =~= seq![s[0]] + s.drop_first().take(k - 1));
        } else {
            assert(t.take(k) =~= s.take(k));
        }
    }
}

/// At the start of the result, a brace-free window is untouched text.
proof fn lemma_front_window(s: Seq<char>, p: Seq<char>, r: Seq<char>, q: Seq<char>)
    requires
        braced(r),
        brace_free(q),
        occurs_at(replace_all(s, p, r), q, 0),
    ensures
        occurs_at(s, q, 0),
{
    let t = replace_all(s, p, r);
    assert forall|j: int| 0 <= j < q.len() implies #[trigger] t[j] != r[0] by {
        assert(t.subrange(0, q.len() as int)[j] == t[j]);
        assert(q[j] == t[j]);
        if t[j] == r[0] {
            assert(q.contains('{'));
        }
    }
    lemma_untouched_prefix(s, p, r, q.len() as int);
    assert(t.subrange(0, q.len() as int) =~= t.take(q.len() as int));
    assert(s.subrange(0, q.len() as int) =~= s.take(q.len() as int));
}

proof fn lemma_no_occurrence_at(s: Seq<char>, p: Seq<char>, r: Seq<char>, i: int)
    requires
        p.len() > 0,
        braced(r),
        brace_free(p),
        !occurs_in(r, p),
    ensures
        !occurs_at(replace_all(s, p, r), p, i),
    decreases s.len(),
{
    let t = replace_all(s, p, r);
    if !occurs_at(t, p, i) {
        return;
    }
    if s.len() < p.len() {
        assert(t == s);
    } else if s.take(p.len() as int) == p {
        let rest = replace_all(s.skip(p.len() as int), p, r);
        assert(t == r + rest);
        if i < r.len() {
            assert(t.subrange(0, r.len() as int) =~= r);
            lemma_window_from_braced(t, r, p, 0, i);
        } else {
            lemma_no_occurrence_at(s.skip(p.len() as int), p, r, i - r.len());
            assert(rest.subrange(i - r.len(), i - r.len() + p.len()) =~= t.subrange(i, i + p.len()));
        }
    } else {
        let rest = replace_all(s.drop_first(), p, r);
        assert(t == seq![s[0]] + rest);
        if i >= 1 {
            lemma_no_occurrence_at(s.drop_first(), p, r, i - 1);
            assert(rest.subrange(i - 1, i - 1 + p.len()) =~= t.subrange(i, i + p.len()));
        } else {
            lemma_front_window(s, p, r, p);
            assert(s.take(p.len() as int) =~= s.subrange(0, p.len() as int));
        }
    }
}

/// Once every occurrence of a brace-free `secret` is replaced by a braced
/// placeholder in which it does not occur, no occurrence of it is left.
pub proof fn replace_leaves_no_occurrence(s: Seq<char>, secret: Seq<char>, placeholder: Seq<char>)
    requires
        secret.len() > 0,
        brace_free(secret),
        braced(placeholder),
        !occurs_in(placeholder, secret),
    ensures
        !occurs_in(replace_all(s, secret, placeholder), secret),
{
    assert forall|i: int| !occurs_at(replace_all(s, secret, placeholder), secret, i) by {
        lemma_no_occurrence_at(s, secret, placeholder, i);
    }
}

proof fn lemma_keeps_absent_at(s: Seq<char>, p: Seq<char>, r: Seq<char>, q: Seq<char>, i: int)
    requires
        braced(r),
        q.len() > 0,
        brace_free(q),
        !occurs_in(r, q),
        !occurs_in(s, q),
    ensures
        !occurs_at(replace_all(s, p, r), q, i),
    decreases s.len(),
{
    let t = replace_all(s, p, r);
    if !occurs_at(t, q, i) {
        return;
    }
    if i == 0 {
        lemma_front_window(s, p, r, q);
        return;
    }
    if p.len() == 0 {
        if s.len() == 0 {
            assert(t == r);
            assert(t.subrange(0, r.len() as int) =~= r);
            lemma_window_from_braced(t, r, q, 0, i);
        } else {
            let rest = replace_all(s.drop_first(), p, r);
            assert(t == r + seq![s[0]] + rest);
            if i < r.len() {
                assert(t.subrange(0, r.len() as int) =~= r);
                lemma_window_from_braced(t, r, q, 0, i);
            } else if i == r.len() {
                if q.len() == 1 {
                    assert(s.subrange(0, 1) =~= seq![s[0]]);
                    assert(t.subrange(i, i + 1) =~= seq![s[0]]);
                    assert(occurs_at(s, q, 0));
                } else {
                    if s.drop_first().len() == 0 {
                        assert(rest == r);
                    } else {
                        assert(rest == r + seq![s.drop_first()[0]] + replace_all(
                            s.drop_first().drop_first(),
                            p,
                            r,
                        ));
                    }
                    assert(t[i + 1] == rest[0]);
                    assert(t.subrange(i, i + q.len())[1] == t[i + 1]);
                    assert(q[1] == '{');
                    assert(q.contains('{'));
                }
            } else {
                lemma_no_suffix(s, q, 1);
                lemma_keeps_absent_at(s.drop_first(), p, r, q, i - r.len() - 1);
                assert(rest.subrange(i - r.len() - 1, i - r.len() - 1 + q.len()) =~= t.subrange(
                    i,
                    i + q.len(),
                ));
            }
        }
    } else if s.len() < p.len() {
        assert(t == s);
        assert(occurs_at(s, q, i));
    } else if s.take(p.len() as int) == p {
        let rest = replace_all(s.skip(p.len() as int), p, r);
        assert(t == r + rest);
        if i < r.len() {
            assert(t.subrange(0, r.len() as int) =~= r);
            lemma_window_from_braced(t, r, q, 0, i);
        } else {
            lemma_no_suffix(s, q, p.len() as int);
            lemma_keeps_absent_at(s.skip(p.len() as int), p, r, q, i - r.len());
            assert(rest.subrange(i - r.len(), i - r.len() + q.len()) =~= t.subrange(i, i + q.len()));
        }
    } else {
        let rest = replace_all(s.drop_first(), p, r);
        assert(t == seq![s[0]] + rest);
        lemma_no_suffix(s, q, 1);
        lemma_keeps_absent_at(s.drop_first(), p, r, q, i - 1);
        assert(rest.subrange(i - 1, i - 1 + q.len()) =~= t.subrange(i, i + q.len()));
    }
}

/// Replacing with a braced placeholder cannot create an occurrence of a
/// brace-free text that does not occur in the placeholder: if the text held
/// none, the result holds none.
pub proof fn replace_creates_no_occurrence(s: Seq<char>, p: Seq<char>, r: Seq<char>, q: Seq<char>)
    requires
        braced(r),
        q.len() > 0,
        brace_free(q),
        !occurs_in(r, q),
        !occurs_in(s, q),
    ensures
        !occurs_in(replace_all(s, p, r), q),
{
    assert forall|i: int| !occurs_at(replace_all(s, p, r), q, i) by {
        lemma_keeps_absent_at(s, p, r, q, i);
    }
}

/// Text in which a non-empty pattern does not occur is left unchanged.
pub proof fn replace_without_occurrence_is_identity(s: Seq<char>, from: Seq<char>, to: Seq<char>)
    requires
        from.len() > 0,
        !occurs_in(s, from),
    ensures
        replace_all(s, from, to) == s,
    decreases s.len(),
{
    if s.len() >= from.len() {
        assert(s.take(from.len() as int) =~= s.subrange(0, from.len() as int));
        assert(!occurs_at(s, from, 0));
        lemma_no_suffix(s, from, 1);
        replace_without_occurrence_is_identity(s.drop_first(), from, to);
        assert(seq![s[0]] + s.drop_first() =~= s);
    }
}

} // verus!

verus! {

/// `s` with every `pat` that is followed by `next` replaced by `to`, taken
/// left to right; the following `next` is kept, and may itself begin the
/// next match.
pub open spec fn replace_before(s: Seq<char>, pat: Seq<char>, next: char, to: Seq<char>) -> Seq<
    char,
>
    decreases s.len(),
{
    if s.len() == 0 {
        s
    } else if pat.len() > 0 && s.len() > pat.len() && s.take(pat.len() as int) == pat
        && s[pat.len() as int] == next {
        to + replace_before(s.skip(pat.len() as int), pat, next, to)
    } else {
        seq![s[0]] + replace_before(s.drop_first(), pat, next, to)
    }
}

/// Replaces every `pat` that is directly followed by `next` with `to`,
/// keeping the `next`.
pub fn replace_followed(s: &str, pat: &str, next: char, to: &str) -> (res: String)
    ensures
        res@ == replace_before(s@, pat@, next, to@),
{
    let sc = chars_of(s);
    let pc = chars_of(pat);
    let tc = chars_of(to);
    let mut out = String::new();
    let n = sc.len();
    let m = pc.len();
    let mut i: usize = 0;
    assert(sc@.skip(0) =~= sc@);
    while i < n
        invariant
            n == sc@.len(),
            m == pc@.len(),
            i <= n,
            replace_before(sc@, pc@, next, tc@) == out@ + replace_before(
                sc@.skip(i as int),
                pc@,
                next,
                tc@,
            ),
        decreases n - i,
    {
        let ghost rest = sc@.skip(i as int);
        let hit = m > 0 && n - i > m && occurs_at_exec(&sc, &pc, i) && sc[i + m] == next;
        if hit {
            assert(rest.take(m as int) =~= sc@.subrange(i as int, i + m));
            assert(rest.skip(m as int) =~= sc@.skip(i + m));
            assert(rest[m as int] == sc@[i + m]);
            push_all(&mut out, &tc);
            i = i + m;
        } else {
            if m > 0 && n - i > m {
                assert(rest.take(m as int) =~= sc@.subrange(i as int, i + m));
                assert(rest[m as int] == sc@[i + m]);
            }
            assert(rest.drop_first() =~= sc@.skip(i + 1));
            push_char(&mut out, sc[i]);
            i = i + 1;
        }
    }
    assert(sc@.skip(n as int) =~= Seq::<char>::empty());
    out
}

/// Whether `to` is `c` followed by a braced placeholder.
pub open spec fn marked_placeholder(to: Seq<char>, c: char) -> bool {
    to.len() >= 3 && to[0] == c && braced(to.skip(1))
}

proof fn lemma_rb_prefix(s: Seq<char>, pat: Seq<char>, next: char, to: Seq<char>, k: int)
    requires
        pat.len() > 0,
        marked_placeholder(to, pat[0]),
        0 <= k <= replace_before(s, pat, next, to).len(),
        forall|j: int| 0 <= j < k ==> #[trigger] replace_before(s, pat, next, to)[j] != '{',
    ensures
        k <= s.len(),
        replace_before(s, pat, next, to).take(k) == s.take(k),
    decreases s.len(),
{
    let t = replace_before(s, pat, next, to);
    if s.len() == 0 {
    } else if s.len() > pat.len() && s.take(pat.len() as int) == pat && s[pat.len() as int] == next {
        assert(t[1] == to[1]);
        assert(to.skip(1)[0] == to[1]);
        assert(t[0] == pat[0]);
        assert(s.take(pat.len() as int)[0] == s[0]);
        assert(t.take(k) =~= s.take(k));
    } else {
        if k > 0 {
            let rest = replace_before(s.drop_first(), pat, next, to);
            assert(t == seq![s[0]] + rest);
            assert forall|j: int| 0 <= j < k - 1 implies #[trigger] rest[j] != '{' by {
                assert(t[j + 1] == rest[j]);
            }
            lemma_rb_prefix(s.drop_first(), pat, next, to, k - 1);
            assert(t.take(k) =~= seq![s[0]] + rest.take(k - 1));
            assert(s.take(k) =~= seq![s[0]] + s.drop_first().take(k - 1));
        } else {
            assert(t.take(k) =~= s.take(k));
        }
    }
}

proof fn lemma_rb_front(s: Seq<char>, pat: Seq<char>, next: char, to: Seq<char>, q: Seq<char>)
    requires
        pat.len() > 0,
        marked_placeholder(to, pat[0]),
        brace_free(q),
        occurs_at(replace_before(s, pat, next, to), q, 0),
    ensures
        occurs_at(s, q, 0),
{
    let t = replace_before(s, pat, next, to);
    assert forall|j: int| 0 <= j < q.len() implies #[trigger] t[j] != '{' by {
        assert(t.subrange(0, q.len() as int)[j] == t[j]);
        assert(q[j] == t[j]);
        if t[j] == '{' {
            assert(q.contains('{'));
        }
    }
    lemma_rb_prefix(s, pat, next, to, q.len() as int);
    assert(t.subrange(0, q.len() as int) =~= t.take(q.len() as int));
    assert(s.subrange(0, q.len() as int) =~= s.take(q.len() as int));
}

proof fn lemma_rb_inside(t: Seq<char>, to: Seq<char>, q: Seq<char>, c: char, i: int)
    requires
        marked_placeholder(to, c),
        brace_free(q),
        !occurs_in(to, q),
        to.len() <= t.len(),
        t.subrange(0, to.len() as int) == to,
        1 <= i < to.len(),
    ensures
        !occurs_at(t, q, i),
{
    lemma_no_suffix(to, q, 1);
    assert(t.subrange(1, to.len() as int) =~= to.skip(1));
    lemma_window_from_braced(t, to.skip(1), q, 1, i);
}

proof fn lemma_rb_removes_at(s: Seq<char>, pat: Seq<char>, next: char, to: Seq<char>, i: int)
    requires
        pat.len() > 0,
        marked_placeholder(to, pat[0]),
        brace_free(pat.push(next)),
        !occurs_in(to, pat.push(next)),
    ensures
        !occurs_at(replace_before(s, pat, next, to), pat.push(next), i),
    decreases s.len(),
{
    let q = pat.push(next);
    let t = replace_before(s, pat, next, to);
    if !occurs_at(t, q, i) {
        return;
    }
    let hit = s.len() > pat.len() && s.take(pat.len() as int) == pat && s[pat.len() as int] == next;
    if i == 0 {
        lemma_rb_front(s, pat, next, to, q);
        assert(s.subrange(0, q.len() as int) == q);
        assert(s.take(pat.len() as int) =~= s.subrange(0, q.len() as int).take(pat.len() as int));
        assert(q.take(pat.len() as int) =~= pat);
        assert(s[pat.len() as int] == s.subrange(0, q.len() as int)[pat.len() as int]);
        assert(hit);
        let rest = replace_before(s.skip(pat.len() as int), pat, next, to);
        assert(t == to + rest);
        assert(t[1] == to[1]);
        assert(to.skip(1)[0] == to[1]);
        assert(t.subrange(0, q.len() as int)[1] == t[1]);
        assert(q[1] == '{');
        assert(q.contains('{'));
        return;
    }
    if s.len() == 0 {
    } else if hit {
        let rest = replace_before(s.skip(pat.len() as int), pat, next, to);
        assert(t == to + rest);
        if i < to.len() {
            assert(t.subrange(0, to.len() as int) =~= to);
            lemma_rb_inside(t, to, q, pat[0], i);
        } else {
            lemma_rb_removes_at(s.skip(pat.len() as int), pat, next, to, i - to.len());
            assert(rest.subrange(i - to.len(), i - to.len() + q.len()) =~= t.subrange(i, i + q.len()));
        }
    } else {
        let rest = replace_before(s.drop_first(), pat, next, to);
        assert(t == seq![s[0]] + rest);
        lemma_rb_removes_at(s.drop_first(), pat, next, to, i - 1);
        assert(rest.subrange(i - 1, i - 1 + q.len()) =~= t.subrange(i, i + q.len()));
    }
}

/// After replacing each `pat` followed by `next`, no `pat` followed by
/// `next` is left, when the replacement is the first character of `pat`
/// followed by a braced placeholder, `pat` and `next` are brace-free, and
/// they do not occur together in the replacement.
pub proof fn replace_before_leaves_no_occurrence(
    s: Seq<char>,
    pat: Seq<char>,
    next: char,
    to: Seq<char>,
)
    requires
        pat.len() > 0,
        marked_placeholder(to, pat[0]),
        brace_free(pat.push(next)),
        !occurs_in(to, pat.push(next)),
    ensures
        !occurs_in(replace_before(s, pat, next, to), pat.push(next)),
{
    assert forall|i: int| !occurs_at(replace_before(s, pat, next, to), pat.push(next), i) by {
        lemma_rb_removes_at(s, pat, next, to, i);
    }
}

proof fn lemma_rb_keeps_absent_at(
    s: Seq<char>,
    pat: Seq<char>,
    next: char,
    to: Seq<char>,
    q: Seq<char>,
    i: int,
)
    requires
        pat.len() > 0,
        marked_placeholder(to, pat[0]),
        q.len() > 0,
        brace_free(q),
        !occurs_in(to, q),
        !occurs_in(s, q),
    ensures
        !occurs_at(replace_before(s, pat, next, to), q, i),
    decreases s.len(),
{
    let t = replace_before(s, pat, next, to);
    if !occurs_at(t, q, i) {
        return;
    }
    if i == 0 {
        lemma_rb_front(s, pat, next, to, q);
        return;
    }
    let hit = s.len() > pat.len() && s.take(pat.len() as int) == pat && s[pat.len() as int] == next;
    if s.len() == 0 {
    } else if hit {
        let rest = replace_before(s.skip(pat.len() as int), pat, next, to);
        assert(t == to + rest);
        if i < to.len() {
            assert(t.subrange(0, to.len() as int) =~= to);
            lemma_rb_inside(t, to, q, pat[0], i);
        } else {
            lemma_no_suffix(s, q, pat.len() as int);
            lemma_rb_keeps_absent_at(s.skip(pat.len() as int), pat, next, to, q, i - to.len());
            assert(rest.subrange(i - to.len(), i - to.len() + q.len()) =~= t.subrange(i, i + q.len()));
        }
    } else {
        let rest = replace_before(s.drop_first(), pat, next, to);
        assert(t == seq![s[0]] + rest);
        lemma_no_suffix(s, q, 1);
        lemma_rb_keeps_absent_at(s.drop_first(), pat, next, to, q, i - 1);
        assert(rest.subrange(i - 1, i - 1 + q.len()) =~= t.subrange(i, i + q.len()));
    }
}

/// Replacing with the first character of `pat` followed by a braced
/// placeholder creates no occurrence of a brace-free text that does not
/// occur in the replacement.
pub proof fn replace_before_creates_no_occurrence(
    s: Seq<char>,
    pat: Seq<char>,
    next: char,
    to: Seq<char>,
    q: Seq<char>,
)
    requires
        pat.len() > 0,
        marked_placeholder(to, pat[0]),
        q.len() > 0,
        brace_free(q),
        !occurs_in(to, q),
        !occurs_in(s, q),
    ensures
        !occurs_in(replace_before(s, pat, next, to), q),
{
    assert forall|i: int| !occurs_at(replace_before(s, pat, next, to), q, i) by {
        lemma_rb_keeps_absent_at(s, pat, next, to, q, i);
    }
}

} // verus!

verus! {

/// Text in which `pat` followed by `next` does not occur is left unchanged.
pub proof fn replace_before_without_occurrence_is_identity(
    s: Seq<char>,
    pat: Seq<char>,
    next: char,
    to: Seq<char>,
)
    requires
        !occurs_in(s, pat.push(next)),
    ensures
        replace_before(s, pat, next, to) == s,
    decreases s.len(),
{
    if s.len() > 0 {
        if pat.len() > 0 && s.len() > pat.len() && s.take(pat.len() as int) == pat
            && s[pat.len() as int] == next {
            assert(s.subrange(0, pat.len() + 1 as int) =~= pat.push(next));
            assert(occurs_at(s, pat.push(next), 0));
        }
        lemma_no_suffix(s, pat.push(next), 1);
        replace_before_without_occurrence_is_identity(s.drop_first(), pat, next, to);
        assert(seq![s[0]] + s.drop_first() =~= s);
    }
}

/// A text that begins and ends with `c` does not occur in one that holds
/// `c` nowhere after its first character.
pub proof fn lemma_separated_not_within(to: Seq<char>, q: Seq<char>, c: char)
    requires
        q.len() >= 2,
        q[0] == c,
        q.last() == c,
        forall|k: int| 0 < k < to.len() ==> #[trigger] to[k] != c,
    ensures
        !occurs_in(to, q),
{
    assert forall|i: int| !occurs_at(to, q, i) by {
        if occurs_at(to, q, i) {
            let w = to.subrange(i, i + q.len());
            assert(w[q.len() - 1] == to[i + q.len() - 1]);
            assert(to[i + q.len() - 1] == c);
        }
    }
}

} // verus!
