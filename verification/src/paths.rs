//! The path sanitizer: splits a client-supplied string on `/`, walks the
//! components, strips traversal (`..`) and hidden-file attempts, and
//! yields a conservative relative path that is safe to join under the
//! served root.  Sanitizing is pure: it never touches the filesystem.
use vstd::prelude::*;
use crate::chars::str_eq;
use crate::preview::is_previewable_name;
use crate::preview::previewable_name;

verus! {

/// The current-directory component `.`.
pub open spec fn cur_seg() -> Seq<char> {
    seq!['.']
}

/// The parent-directory component `..`.
pub open spec fn parent_seg() -> Seq<char> {
    seq!['.', '.']
}

/// Splits `s` on `/`.  Adjacent separators, and a leading or trailing
/// separator, yield empty segments; the result is never empty.
pub open spec fn split_segments(s: Seq<char>) -> Seq<Seq<char>>
    decreases s.len(),
{
    if s.len() == 0 {
        seq![Seq::<char>::empty()]
    } else if s[0] == '/' {
        seq![Seq::<char>::empty()] + split_segments(s.drop_first())
    } else {
        let rest = split_segments(s.drop_first());
        seq![seq![s[0]] + rest[0]] + rest.drop_first()
    }
}

pub proof fn lemma_split_len(s: Seq<char>)
    ensures
        split_segments(s).len() >= 1,
    decreases s.len(),
{
    if s.len() > 0 {
        lemma_split_len(s.drop_first());
    }
}

/// No segment of a split holds a separator.
pub proof fn lemma_split_no_slash(s: Seq<char>)
    ensures
        forall|k: int|
            0 <= k < split_segments(s).len() ==> !(#[trigger] split_segments(s)[k]).contains('/'),
    decreases s.len(),
{
    if s.len() == 0 {
        assert forall|k: int|
            0 <= k < split_segments(s).len() implies !(#[trigger] split_segments(s)[k]).contains(
            '/',
        ) by {
            assert(split_segments(s)[k] =~= Seq::<char>::empty());
        }
    } else if s[0] == '/' {
        lemma_split_no_slash(s.drop_first());
        let rest = split_segments(s.drop_first());
        assert forall|k: int|
            0 <= k < split_segments(s).len() implies !(#[trigger] split_segments(s)[k]).contains(
            '/',
        ) by {
            if k == 0 {
                assert(split_segments(s)[0] =~= Seq::<char>::empty());
            } else {
                assert(split_segments(s)[k] == rest[k - 1]);
            }
        }
    } else {
        lemma_split_no_slash(s.drop_first());
        lemma_split_len(s.drop_first());
        let rest = split_segments(s.drop_first());
        assert forall|k: int|
            0 <= k < split_segments(s).len() implies !(#[trigger] split_segments(s)[k]).contains(
            '/',
        ) by {
            if k == 0 {
                let seg = seq![s[0]] + rest[0];
                assert(split_segments(s)[0] == seg);
                if seg.contains('/') {
                    let i = choose|i: int| 0 <= i < seg.len() && seg[i] == '/';
                    if i == 0 {
                        assert(s[0] == '/');
                    } else {
                        assert(rest[0][i - 1] == '/');
                        assert(rest[0].contains('/'));
                    }
                }
            } else {
                assert(split_segments(s)[k] == rest.drop_first()[k - 1]);
                assert(rest.drop_first()[k - 1] == rest[k]);
            }
        }
    }
}

/// Joins segments with `/`, the inverse of `split_segments` on
/// separator-free segments.
pub open spec fn join_segments(segs: Seq<Seq<char>>) -> Seq<char>
    decreases segs.len(),
{
    if segs.len() == 0 {
        Seq::empty()
    } else if segs.len() == 1 {
        segs[0]
    } else {
        segs[0] + seq!['/'] + join_segments(segs.drop_first())
    }
}

pub proof fn lemma_join_snoc(p: Seq<Seq<char>>, x: Seq<char>)
    requires
        p.len() >= 1,
    ensures
        join_segments(p.push(x)) == join_segments(p) + seq!['/'] + x,
    decreases p.len(),
{
    if p.len() == 1 {
        assert(p.push(x).drop_first() =~= seq![x]);
        assert(join_segments(seq![x]) == x);
        assert(join_segments(p.push(x)) == p[0] + seq!['/'] + x);
    } else {
        assert(p.push(x).drop_first() =~= p.drop_first().push(x));
        lemma_join_snoc(p.drop_first(), x);
        assert(join_segments(p.push(x)) == p[0] + seq!['/'] + (join_segments(p.drop_first())
            + seq!['/'] + x));
        assert(p[0] + seq!['/'] + (join_segments(p.drop_first()) + seq!['/'] + x) =~= (p[0]
            + seq!['/'] + join_segments(p.drop_first())) + seq!['/'] + x);
    }
}

pub proof fn lemma_split_slashfree(s: Seq<char>)
    requires
        !s.contains('/'),
    ensures
        split_segments(s) =~= seq![s],
    decreases s.len(),
{
    if s.len() == 0 {
        assert(s =~= Seq::<char>::empty());
    } else {
        assert(s[0] != '/');
        if s.drop_first().contains('/') {
            let i = choose|i: int|
                0 <= i < s.drop_first().len() && s.drop_first()[i] == '/';
            assert(s[i + 1] == '/');
        }
        lemma_split_slashfree(s.drop_first());
        let rest = split_segments(s.drop_first());
        assert(rest =~= seq![s.drop_first()]);
        assert(seq![s[0]] + rest[0] =~= s);
        assert(rest.drop_first() =~= Seq::<Seq<char>>::empty());
        assert(split_segments(s) =~= seq![s]);
    }
}

pub proof fn lemma_split_concat(a: Seq<char>, b: Seq<char>)
    requires
        !a.contains('/'),
    ensures
        split_segments(a + seq!['/'] + b) =~= seq![a] + split_segments(b),
    decreases a.len(),
{
    let s = a + seq!['/'] + b;
    if a.len() == 0 {
        assert(s[0] == '/');
        assert(s.drop_first() =~= b);
        assert(split_segments(s) == seq![Seq::<char>::empty()] + split_segments(b));
        assert(Seq::<char>::empty() =~= a);
        assert(seq![Seq::<char>::empty()] + split_segments(b) =~= seq![a] + split_segments(b));
    } else {
        assert(s[0] == a[0]);
        assert(a[0] != '/');
        if a.drop_first().contains('/') {
            let i = choose|i: int|
                0 <= i < a.drop_first().len() && a.drop_first()[i] == '/';
            assert(a[i + 1] == '/');
        }
        assert(s.drop_first() =~= a.drop_first() + seq!['/'] + b);
        lemma_split_concat(a.drop_first(), b);
        let rest = split_segments(s.drop_first());
        assert(rest =~= seq![a.drop_first()] + split_segments(b));
        lemma_split_len(b);
        assert(rest[0] == a.drop_first());
        assert(seq![s[0]] + rest[0] =~= a);
        assert(rest.drop_first() =~= split_segments(b));
        assert(split_segments(s) =~= seq![a] + split_segments(b));
    }
}

/// Splitting the joined text recovers the segments, provided none of
/// them holds a separator.
pub proof fn lemma_split_join(p: Seq<Seq<char>>)
    requires
        p.len() >= 1,
        forall|i: int| 0 <= i < p.len() ==> !(#[trigger] p[i]).contains('/'),
    ensures
        split_segments(join_segments(p)) =~= p,
    decreases p.len(),
{
    if p.len() == 1 {
        lemma_split_slashfree(p[0]);
        assert(split_segments(join_segments(p)) =~= seq![p[0]]);
        assert(seq![p[0]] =~= p);
    } else {
        assert(join_segments(p) == p[0] + seq!['/'] + join_segments(p.drop_first()));
        lemma_split_concat(p[0], join_segments(p.drop_first()));
        lemma_split_join(p.drop_first());
        assert(split_segments(join_segments(p)) =~= seq![p[0]] + p.drop_first());
        assert(seq![p[0]] + p.drop_first() =~= p);
    }
}

/// A normal component is kept unless it is a hidden name that the
/// preview allowlist does not except.
pub open spec fn keep_normal(seg: Seq<char>) -> bool {
    seg[0] != '.' || is_previewable_name(seg)
}

/// One step of the sanitizer's walk: `seg` is component number `i` of
/// the raw path, `acc` what was emitted so far.
pub open spec fn norm_step(acc: Seq<Seq<char>>, seg: Seq<char>, i: int) -> Seq<Seq<char>> {
    if seg.len() == 0 {
        acc
    } else if seg == parent_seg() {
        if acc.len() > 0 {
            acc.drop_last()
        } else {
            acc
        }
    } else if seg == cur_seg() {
        if i == 0 {
            acc.push(seg)
        } else {
            acc
        }
    } else if keep_normal(seg) {
        acc.push(seg)
    } else {
        acc
    }
}

/// The sanitizer's walk over the first `n` raw components.
pub open spec fn norm_prefix(raw: Seq<Seq<char>>, n: int) -> Seq<Seq<char>>
    decreases n,
{
    if n <= 0 {
        Seq::empty()
    } else {
        norm_step(norm_prefix(raw, n - 1), raw[n - 1], n - 1)
    }
}

/// The sanitizer on already-split components; an empty result defaults
/// to the current-directory marker.
pub open spec fn normalize_segments(raw: Seq<Seq<char>>) -> Seq<Seq<char>> {
    let r = norm_prefix(raw, raw.len() as int);
    if r.len() == 0 {
        seq![cur_seg()]
    } else {
        r
    }
}

/// What the sanitizer yields for the (already percent-decoded) text `s`.
pub open spec fn sanitized(s: Seq<char>) -> Seq<Seq<char>> {
    normalize_segments(split_segments(s))
}

/// A well-formed sanitized component: non-empty, separator-free, never
/// a parent reference, the current-directory marker only in front, and
/// hidden only when the preview allowlist excepts it.
pub open spec fn wf_seg(seg: Seq<char>, i: int) -> bool {
    &&& seg.len() > 0
    &&& !seg.contains('/')
    &&& seg != parent_seg()
    &&& (seg == cur_seg() ==> i == 0)
    &&& (seg[0] == '.' && seg != cur_seg() ==> is_previewable_name(seg))
}

/// A well-formed relative path: what `sanitized` always returns.
pub open spec fn wf_rel(p: Seq<Seq<char>>) -> bool {
    p.len() > 0 && forall|i: int| 0 <= i < p.len() ==> wf_seg(#[trigger] p[i], i)
}

proof fn lemma_cur_seg_plain()
    ensures
        !cur_seg().contains('/'),
        cur_seg() != parent_seg(),
{
    if cur_seg().contains('/') {
        let i = choose|i: int| 0 <= i < cur_seg().len() && cur_seg()[i] == '/';
        assert(cur_seg()[0] == '.');
    }
    assert(cur_seg().len() != parent_seg().len());
}

proof fn lemma_norm_prefix_wf(raw: Seq<Seq<char>>, n: int)
    requires
        0 <= n <= raw.len(),
        forall|k: int| 0 <= k < raw.len() ==> !(#[trigger] raw[k]).contains('/'),
    ensures
        forall|i: int|
            0 <= i < norm_prefix(raw, n).len() ==> wf_seg(#[trigger] norm_prefix(raw, n)[i], i),
    decreases n,
{
    if n > 0 {
        lemma_norm_prefix_wf(raw, n - 1);
        lemma_cur_seg_plain();
        let acc = norm_prefix(raw, n - 1);
        let seg = raw[n - 1];
        let out = norm_prefix(raw, n);
        if seg.len() == 0 {
        } else if seg == parent_seg() {
            if acc.len() > 0 {
                assert forall|i: int| 0 <= i < out.len() implies wf_seg(#[trigger] out[i], i) by {
                    assert(out[i] == acc[i]);
                }
            }
        } else if seg == cur_seg() {
            if n - 1 == 0 {
                assert(acc =~= Seq::<Seq<char>>::empty());
                assert forall|i: int| 0 <= i < out.len() implies wf_seg(#[trigger] out[i], i) by {
                    assert(i == 0);
                    assert(out[0] == cur_seg());
                }
            }
        } else if keep_normal(seg) {
            assert forall|i: int| 0 <= i < out.len() implies wf_seg(#[trigger] out[i], i) by {
                if i < acc.len() {
                    assert(out[i] == acc[i]);
                } else {
                    assert(out[i] == seg);
                    assert(seg != cur_seg());
                }
            }
        }
    }
}

/// Everything the sanitizer returns is well formed: in particular it
/// holds no parent component and no unexcepted hidden name.
pub proof fn lemma_sanitized_wf(s: Seq<char>)
    ensures
        wf_rel(sanitized(s)),
{
    lemma_split_no_slash(s);
    let raw = split_segments(s);
    lemma_norm_prefix_wf(raw, raw.len() as int);
    let r = norm_prefix(raw, raw.len() as int);
    if r.len() == 0 {
        lemma_cur_seg_plain();
        assert(sanitized(s) == seq![cur_seg()]);
        assert(sanitized(s)[0] == cur_seg());
    }
}

proof fn lemma_norm_prefix_of_wf(p: Seq<Seq<char>>, n: int)
    requires
        0 <= n <= p.len(),
        forall|i: int| 0 <= i < p.len() ==> wf_seg(#[trigger] p[i], i),
    ensures
        norm_prefix(p, n) =~= p.subrange(0, n),
    decreases n,
{
    if n > 0 {
        lemma_norm_prefix_of_wf(p, n - 1);
        let seg = p[n - 1];
        assert(wf_seg(seg, n - 1));
        if seg == cur_seg() {
            assert(norm_prefix(p, n) =~= p.subrange(0, n - 1).push(seg));
            assert(p.subrange(0, n - 1).push(seg) =~= p.subrange(0, n));
        } else {
            assert(keep_normal(seg));
            assert(norm_prefix(p, n) =~= p.subrange(0, n - 1).push(seg));
            assert(p.subrange(0, n - 1).push(seg) =~= p.subrange(0, n));
        }
    }
}

/// The sanitizer leaves a well-formed path unchanged.
pub proof fn lemma_normalize_of_wf(p: Seq<Seq<char>>)
    requires
        wf_rel(p),
    ensures
        normalize_segments(p) == p,
{
    lemma_norm_prefix_of_wf(p, p.len() as int);
    assert(p.subrange(0, p.len() as int) =~= p);
}

/// Normalizing is idempotent: rendering a normalized path back to
/// text and normalizing again changes nothing.  Percent-decoding
/// happens once, before normalization; a rendered path is decoded
/// unchanged whenever it holds no `%`.
pub proof fn lemma_sanitize_idempotent(s: Seq<char>)
    ensures
        sanitized(join_segments(sanitized(s))) == sanitized(s),
{
    lemma_sanitized_wf(s);
    let p = sanitized(s);
    assert(forall|i: int| 0 <= i < p.len() ==> !(#[trigger] p[i]).contains('/'));
    lemma_split_join(p);
    lemma_normalize_of_wf(p);
}

/// The full sanitizer is idempotent as well: where the rendered text
/// of a sanitized path decodes to itself — so in particular whenever
/// it holds no `%` — decoding and normalizing it again returns the
/// same path.
pub proof fn lemma_sanitize_again(s: Seq<char>, d: Seq<char>)
    requires
        d == join_segments(sanitized(s)),
        decoded_or_raw(d) == d,
    ensures
        sanitized(decoded_or_raw(d)) == sanitized(s),
{
    lemma_sanitize_idempotent(s);
}

/// A sanitized relative path: an ordered sequence of components, free
/// of parent references; purely syntactic, no proof of containment.
#[derive(Debug)]
pub struct RelPath {
    pub segs: Vec<String>,
}

impl View for RelPath {
    type V = Seq<Seq<char>>;

    open spec fn view(&self) -> Seq<Seq<char>> {
        self.segs.deep_view()
    }
}

fn split_path(s: &str) -> (v: Vec<String>)
    ensures
        v.deep_view() =~= split_segments(s@),
{
    let n: usize = s.unicode_len();
    let mut segs: Vec<String> = Vec::new();
    let mut cur: String = String::new();
    let mut i: usize = 0;
    proof {
        lemma_split_len(s@);
        assert(s@.subrange(0, n as int) =~= s@);
        let x = split_segments(s@);
        assert(Seq::<char>::empty() + x[0] =~= x[0]);
        assert(segs.deep_view() + seq![cur@ + x[0]] + x.drop_first() =~= seq![x[0]]
            + x.drop_first());
        assert(seq![x[0]] + x.drop_first() =~= x);
    }
    while i < n
        invariant
            n == s@.len(),
            0 <= i <= n,
            split_segments(s@) =~= segs.deep_view() + seq![cur@ + split_segments(
                s@.subrange(i as int, n as int),
            )[0]] + split_segments(s@.subrange(i as int, n as int)).drop_first(),
        decreases n - i,
    {
        let c: char = s.get_char(i);
        proof {
            let suf = s@.subrange(i as int, n as int);
            let suf1 = s@.subrange(i as int + 1, n as int);
            assert(suf.len() > 0);
            assert(suf[0] == s@[i as int]);
            assert(suf.drop_first() =~= suf1);
            lemma_split_len(suf1);
        }
        if c == '/' {
            let ghost old_segs = segs.deep_view();
            let ghost old_cur = cur@;
            segs.push(cur);
            cur = String::new();
            proof {
                let suf = s@.subrange(i as int, n as int);
                let suf1 = s@.subrange(i as int + 1, n as int);
                let x1 = split_segments(suf1);
                assert(split_segments(suf) == seq![Seq::<char>::empty()] + x1);
                assert(segs.deep_view() =~= old_segs.push(old_cur));
                assert(old_cur + (seq![Seq::<char>::empty()] + x1)[0] =~= old_cur);
                assert((seq![Seq::<char>::empty()] + x1).drop_first() =~= x1);
                assert(old_segs + seq![old_cur] + x1 =~= old_segs.push(old_cur) + seq![
                    cur@ + x1[0]] + x1.drop_first());
                assert(old_segs + seq![old_cur + (seq![Seq::<char>::empty()] + x1)[0]] + (seq![
                    Seq::<char>::empty()] + x1).drop_first() =~= old_segs + seq![old_cur] + (seq![
                    x1[0]] + x1.drop_first()));
                assert(seq![x1[0]] + x1.drop_first() =~= x1);
                assert(old_segs + seq![old_cur] + (seq![x1[0]] + x1.drop_first()) =~= old_segs
                    + seq![old_cur] + x1);
            }
        } else {
            let ghost old_cur = cur@;
            cur.push(c);
            proof {
                let suf = s@.subrange(i as int, n as int);
                let suf1 = s@.subrange(i as int + 1, n as int);
                let x1 = split_segments(suf1);
                assert(split_segments(suf) == seq![seq![suf[0]] + x1[0]] + x1.drop_first());
                assert(cur@ =~= old_cur.push(c));
                assert(old_cur + (seq![suf[0]] + x1[0]) =~= cur@ + x1[0]);
            }
        }
        i += 1;
    }
    proof {
        let suf = s@.subrange(n as int, n as int);
        assert(suf =~= Seq::<char>::empty());
        let x = split_segments(suf);
        assert(x == seq![Seq::<char>::empty()]);
        assert(cur@ + x[0] =~= cur@);
        assert(x.drop_first() =~= Seq::<Seq<char>>::empty());
        assert(split_segments(s@) =~= segs.deep_view().push(cur@));
    }
    let ghost pre = segs.deep_view();
    segs.push(cur);
    proof {
        assert(segs.deep_view() =~= pre.push(split_segments(s@).last()));
        assert(segs.deep_view() =~= split_segments(s@));
    }
    segs
}

fn fold_segments(raw: &Vec<String>) -> (r: Vec<String>)
    ensures
        r.deep_view() =~= norm_prefix(raw.deep_view(), raw.deep_view().len() as int),
{
    let mut acc: Vec<String> = Vec::new();
    let mut idx: usize = 0;
    proof {
        reveal_strlit(".");
        reveal_strlit("..");
        assert("."@ =~= cur_seg());
        assert(".."@ =~= parent_seg());
    }
    while idx < raw.len()
        invariant
            0 <= idx <= raw.len(),
            raw.deep_view().len() == raw@.len(),
            "."@ == cur_seg(),
            ".."@ == parent_seg(),
            acc.deep_view() =~= norm_prefix(raw.deep_view(), idx as int),
        decreases raw.len() - idx,
    {
        let seg: &String = &raw[idx];
        proof {
            assert(raw.deep_view()[idx as int] == raw@[idx as int]@);
        }
        let ghost old_acc = acc.deep_view();
        if seg.as_str().unicode_len() == 0 {
        } else if str_eq(seg.as_str(), "..") {
            if acc.len() > 0 {
                acc.pop();
                proof {
                    assert(acc.deep_view() =~= old_acc.drop_last());
                }
            }
        } else if str_eq(seg.as_str(), ".") {
            if idx == 0 {
                acc.push(seg.clone());
                proof {
                    assert(acc.deep_view() =~= old_acc.push(seg@));
                }
            }
        } else {
            let keep: bool = if seg.as_str().get_char(0) != '.' {
                true
            } else {
                previewable_name(seg.as_str())
            };
            if keep {
                acc.push(seg.clone());
                proof {
                    assert(acc.deep_view() =~= old_acc.push(seg@));
                }
            }
        }
        idx += 1;
    }
    acc
}

/// Normalizes already-decoded text into a well-formed relative path,
/// exactly as `sanitized` describes.
pub fn normalize_path(s: &str) -> (r: RelPath)
    ensures
        r@ == sanitized(s@),
        wf_rel(r@),
{
    let raw: Vec<String> = split_path(s);
    let mut segs: Vec<String> = fold_segments(&raw);
    proof {
        lemma_sanitized_wf(s@);
    }
    if segs.len() == 0 {
        let ghost pre = segs.deep_view();
        segs.push(String::from_str("."));
        proof {
            reveal_strlit(".");
            assert("."@ =~= cur_seg());
            assert(segs.deep_view() =~= pre.push("."@));
            assert(segs.deep_view() =~= seq![cur_seg()]);
        }
    }
    let r = RelPath { segs };
    proof {
        assert(r@ =~= sanitized(s@));
    }
    r
}

/// What an untrusted path string decodes to: the percent-decoded form,
/// or the text itself where decoding fails.
pub uninterp spec fn decoded_or_raw(s: Seq<char>) -> Seq<char>;

/// Relies on `urlencoding::decode`: percent-decodes UTF-8 text, returns
/// the input itself when it holds no `%`, and fails only on invalid
/// UTF-8, where the raw input is kept, as the decoding is a pure
/// function of the text.
#[verifier::external_body]
fn percent_decode(s: &str) -> (r: String)
    ensures
        r@ == decoded_or_raw(s@),
        !s@.contains('%') ==> r@ == s@,
{
    match urlencoding::decode(s) {
        Ok(c) => c.into_owned(),
        Err(_) => s.to_string(),
    }
}

/// The full sanitizer: percent-decode, then normalize.  Pure and total;
/// it never touches the filesystem and never fails.
pub fn sanitize(s: &str) -> (r: RelPath)
    ensures
        r@ == sanitized(decoded_or_raw(s@)),
        wf_rel(r@),
{
    let d: String = percent_decode(s);
    normalize_path(d.as_str())
}

/// Renders a relative path back to text, components joined by `/`.
pub fn rel_to_string(p: &RelPath) -> (r: String)
    ensures
        r@ == join_segments(p@),
{
    let mut out: String = String::new();
    let mut i: usize = 0;
    proof {
        assert(p@.subrange(0, 0) =~= Seq::<Seq<char>>::empty());
        assert(out@ =~= join_segments(p@.subrange(0, 0)));
    }
    while i < p.segs.len()
        invariant
            0 <= i <= p.segs.len(),
            p@.len() == p.segs@.len(),
            out@ =~= join_segments(p@.subrange(0, i as int)),
        decreases p.segs.len() - i,
    {
        proof {
            assert(p@[i as int] == p.segs@[i as int]@);
        }
        if i > 0 {
            out.push('/');
            out.append(p.segs[i].as_str());
            proof {
                let pre = p@.subrange(0, i as int);
                lemma_join_snoc(pre, p@[i as int]);
                assert(pre.push(p@[i as int]) =~= p@.subrange(0, i as int + 1));
                assert(out@ =~= join_segments(p@.subrange(0, i as int + 1)));
            }
        } else {
            out.append(p.segs[i].as_str());
            proof {
                assert(p@.subrange(0, 1) =~= seq![p@[0]]);
                assert(join_segments(seq![p@[0]]) == p@[0]);
                assert(out@ =~= join_segments(p@.subrange(0, 1)));
            }
        }
        i += 1;
    }
    proof {
        assert(p@.subrange(0, p@.len() as int) =~= p@);
    }
    out
}

/// The path is the bare current-directory marker, i.e. the served root.
pub fn rel_is_root(p: &RelPath) -> (r: bool)
    ensures
        r == (p@ == seq![cur_seg()]),
{
    proof {
        reveal_strlit(".");
        assert("."@ =~= cur_seg());
    }
    if p.segs.len() == 1 {
        proof {
            assert(p@[0] == p.segs@[0]@);
        }
        let r = str_eq(p.segs[0].as_str(), ".");
        proof {
            if r {
                assert(p@ =~= seq![cur_seg()]);
            } else if p@ == seq![cur_seg()] {
                assert(p@[0] == cur_seg());
            }
        }
        r
    } else {
        proof {
            if p@ == seq![cur_seg()] {
                assert(p@.len() == 1);
            }
        }
        false
    }
}

/// The text of the parent of `p`: its components but the last.  For a
/// single-component path this is empty, and sanitizing the empty text
/// leads back to the root.
pub fn rel_parent_string(p: &RelPath) -> (r: String)
    requires
        p@.len() >= 1,
    ensures
        r@ == join_segments(p@.drop_last()),
{
    let mut out: String = String::new();
    let mut i: usize = 0;
    proof {
        assert(p@.subrange(0, 0) =~= Seq::<Seq<char>>::empty());
    }
    while i < p.segs.len() - 1
        invariant
            0 <= i && i + 1 <= p.segs@.len(),
            p@.len() == p.segs@.len(),
            p@.len() >= 1,
            out@ =~= join_segments(p@.subrange(0, i as int)),
        decreases p.segs.len() - i,
    {
        proof {
            assert(p@[i as int] == p.segs@[i as int]@);
        }
        if i > 0 {
            out.push('/');
            out.append(p.segs[i].as_str());
            proof {
                let pre = p@.subrange(0, i as int);
                lemma_join_snoc(pre, p@[i as int]);
                assert(pre.push(p@[i as int]) =~= p@.subrange(0, i as int + 1));
            }
        } else {
            out.append(p.segs[i].as_str());
            proof {
                assert(p@.subrange(0, 1) =~= seq![p@[0]]);
                assert(join_segments(seq![p@[0]]) == p@[0]);
            }
        }
        i += 1;
    }
    proof {
        assert(p@.drop_last() =~= p@.subrange(0, p@.len() - 1));
    }
    out
}

} // verus!
