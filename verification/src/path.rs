//! Path patterns: how a path splits into segments, how a mount prefix
//! qualifies a path, and how a pattern is held against a request path.
//!
//! A path is read as the sequence of its non-empty pieces between slashes, so
//! `/users/{id}`, `users/{id}/` and `//users//{id}` all denote the same two
//! segments. A segment written `{name}` is a named parameter and matches any
//! one request segment; every other segment is a literal.

use crate::text::{lemma_texts_push, texts};
use vstd::prelude::*;

verus! {

/// The slash-free run of characters at the end of `s`: the segment that is
/// still open after reading `s`.
pub open spec fn pending(s: Seq<char>) -> Seq<char>
    decreases s.len(),
{
    if s.len() == 0 || s.last() == '/' {
        Seq::empty()
    } else {
        pending(s.drop_last()).push(s.last())
    }
}

/// A finished run as a list of segments: nothing if it is empty.
pub open spec fn flush(run: Seq<char>) -> Seq<Seq<char>> {
    if run.len() == 0 {
        Seq::empty()
    } else {
        seq![run]
    }
}

/// The segments of `s` that a slash has already closed.
pub open spec fn completed(s: Seq<char>) -> Seq<Seq<char>>
    decreases s.len(),
{
    if s.len() == 0 {
        Seq::empty()
    } else if s.last() == '/' {
        completed(s.drop_last()) + flush(pending(s.drop_last()))
    } else {
        completed(s.drop_last())
    }
}

/// The segments of a path: its non-empty pieces between slashes, in order.
pub open spec fn segments(s: Seq<char>) -> Seq<Seq<char>> {
    completed(s) + flush(pending(s))
}

/// A segment as it can occur in a path: not empty and free of slashes.
pub open spec fn clean_segment(seg: Seq<char>) -> bool {
    seg.len() > 0 && forall|i: int| 0 <= i < seg.len() ==> seg[i] != '/'
}

pub open spec fn clean_segments(segs: Seq<Seq<char>>) -> bool {
    forall|k: int| 0 <= k < segs.len() ==> clean_segment(#[trigger] segs[k])
}

/// Every segment preceded by a slash, one after the other.
pub open spec fn join(segs: Seq<Seq<char>>) -> Seq<char>
    decreases segs.len(),
{
    if segs.len() == 0 {
        Seq::empty()
    } else {
        join(segs.drop_last()) + seq!['/'] + segs.last()
    }
}

/// The canonical text of a segment list: `/` alone for the empty list.
pub open spec fn render(segs: Seq<Seq<char>>) -> Seq<char> {
    if segs.len() == 0 {
        seq!['/']
    } else {
        join(segs)
    }
}

/// The fully qualified path of `path` mounted under `prefix`, in canonical
/// form.
pub open spec fn qualified_path(prefix: Seq<char>, path: Seq<char>) -> Seq<char> {
    render(segments(prefix) + segments(path))
}

/// A named parameter: `{`, a name, `}`.
pub open spec fn is_parameter(seg: Seq<char>) -> bool {
    seg.len() >= 3 && seg[0] == '{' && seg[seg.len() - 1] == '}'
}

/// The name between the braces of a parameter segment.
pub open spec fn parameter_name(seg: Seq<char>) -> Seq<char> {
    seg.subrange(1, seg.len() - 1)
}

/// A mount prefix is valid when it starts with a slash, has no empty piece
/// (so no doubled or trailing slash, except that `/` alone is the root) and
/// names literal segments only.
pub open spec fn valid_prefix(p: Seq<char>) -> bool {
    &&& p.len() > 0
    &&& p[0] == '/'
    &&& (p.len() == 1 || p.last() != '/')
    &&& forall|i: int| 0 <= i < p.len() - 1 ==> !(p[i] == '/' && #[trigger] p[i + 1] == '/')
    &&& forall|k: int|
        0 <= k < segments(p).len() ==> !is_parameter(#[trigger] segments(p)[k])
}

/// A pattern matches a request when both have the same number of segments
/// and each pattern segment is a parameter or equals the request's segment.
pub open spec fn pattern_matches(pattern: Seq<Seq<char>>, request: Seq<Seq<char>>) -> bool {
    &&& pattern.len() == request.len()
    &&& forall|i: int|
        0 <= i < pattern.len() ==> is_parameter(#[trigger] pattern[i]) || pattern[i] == request[i]
}

/// `a` is strictly more specific than `b`: at the first position where one
/// has a literal and the other a parameter, `a` has the literal.
pub open spec fn outranks(a: Seq<Seq<char>>, b: Seq<Seq<char>>) -> bool {
    exists|k: int| outranks_at(a, b, k)
}

pub open spec fn outranks_at(a: Seq<Seq<char>>, b: Seq<Seq<char>>, k: int) -> bool {
    &&& 0 <= k < a.len()
    &&& k < b.len()
    &&& !is_parameter(a[k])
    &&& is_parameter(b[k])
    &&& forall|j: int| 0 <= j < k ==> is_parameter(#[trigger] a[j]) == is_parameter(b[j])
}

/// One bound path parameter.
#[derive(Clone, Debug, PartialEq, Eq)]
pub struct PathParameter {
    pub name: String,
    pub value: String,
}

pub struct PathParameterSpec {
    pub name: Seq<char>,
    pub value: Seq<char>,
}

impl View for PathParameter {
    type V = PathParameterSpec;

    open spec fn view(&self) -> PathParameterSpec {
        PathParameterSpec { name: self.name@, value: self.value@ }
    }
}

pub open spec fn parameters_view(v: Seq<PathParameter>) -> Seq<PathParameterSpec> {
    Seq::new(v.len(), |i: int| v[i]@)
}

/// The parameters that the first `n` pattern segments bind in `request`.
pub open spec fn bindings_upto(
    pattern: Seq<Seq<char>>,
    request: Seq<Seq<char>>,
    n: int,
) -> Seq<PathParameterSpec>
    decreases n,
{
    if n <= 0 {
        Seq::empty()
    } else if is_parameter(pattern[n - 1]) {
        bindings_upto(pattern, request, n - 1).push(
            PathParameterSpec { name: parameter_name(pattern[n - 1]), value: request[n - 1] },
        )
    } else {
        bindings_upto(pattern, request, n - 1)
    }
}

/// Each parameter of `pattern` with the request segment at its position, in
/// path order.
pub open spec fn bindings(pattern: Seq<Seq<char>>, request: Seq<Seq<char>>) -> Seq<
    PathParameterSpec,
> {
    bindings_upto(
        pattern,
        request,
        if pattern.len() <= request.len() {
            pattern.len() as int
        } else {
            request.len() as int
        },
    )
}

/// Splits a path into its segments.
pub fn parse_segments(path: &str) -> (segs: Vec<String>)
    ensures
        texts(segs@) == segments(path@),
{
    let n: usize = path.unicode_len();
    let mut out: Vec<String> = Vec::new();
    let mut start: usize = 0;
    let mut i: usize = 0;
    while i < n
        invariant
            i <= n,
            n == path@.len(),
            start <= i,
            texts(out@) == completed(path@.take(i as int)),
            path@.subrange(start as int, i as int) == pending(path@.take(i as int)),
        decreases n - i,
    {
        let c = path.get_char(i);
        proof {
            let before = path@.take(i as int);
            let now = path@.take(i + 1);
            assert(now.drop_last() =~= before);
            assert(now.last() == c);
            if c != '/' {
                assert(path@.subrange(start as int, i + 1) =~= path@.subrange(
                    start as int,
                    i as int,
                ).push(c));
            } else {
                assert(path@.subrange(i + 1, i + 1) =~= Seq::<char>::empty());
            }
        }
        if c == '/' {
            if start < i {
                let piece = path.substring_char(start, i).to_owned();
                proof {
                    lemma_texts_push(out@, piece);
                }
                out.push(piece);
            }
            start = i + 1;
        }
        i += 1;
    }
    proof {
        assert(path@.take(n as int) =~= path@);
    }
    if start < n {
        let piece = path.substring_char(start, n).to_owned();
        proof {
            lemma_texts_push(out@, piece);
        }
        out.push(piece);
    }
    out
}

/// Writes a segment list back as a canonical path.
pub fn render_segments(segs: &Vec<String>) -> (path: String)
    ensures
        path@ == render(texts(segs@)),
{
    proof {
        reveal_strlit("/");
    }
    if segs.len() == 0 {
        let root = "/".to_owned();
        assert(root@ =~= seq!['/']);
        return root;
    }
    let mut out = String::new();
    let mut i: usize = 0;
    while i < segs.len()
        invariant
            i <= segs.len(),
            out@ == join(texts(segs@).take(i as int)),
            "/"@ == seq!['/'],
        decreases segs.len() - i,
    {
        proof {
            let now = texts(segs@).take(i + 1);
            assert(now.drop_last() =~= texts(segs@).take(i as int));
            assert(now.last() == segs[i as int]@);
        }
        out.append("/");
        out.append(segs[i].as_str());
        i += 1;
    }
    proof {
        assert(texts(segs@).take(segs.len() as int) =~= texts(segs@));
    }
    out
}

/// The canonical full path of `path` mounted under `prefix`.
pub fn qualify(prefix: &str, path: &str) -> (full: String)
    ensures
        full@ == qualified_path(prefix@, path@),
{
    let mut segs = parse_segments(prefix);
    let mut tail = parse_segments(path);
    let ghost head = segs@;
    let ghost rest = tail@;
    segs.append(&mut tail);
    proof {
        assert(texts(head + rest) =~= texts(head) + texts(rest));
    }
    render_segments(&segs)
}

/// Whether a segment is a named parameter.
pub fn segment_is_parameter(seg: &str) -> (b: bool)
    ensures
        b == is_parameter(seg@),
{
    let n: usize = seg.unicode_len();
    n >= 3 && seg.get_char(0) == '{' && seg.get_char(n - 1) == '}'
}

/// The name of a parameter segment; `None` for a literal.
pub fn segment_parameter_name(seg: &str) -> (name: Option<String>)
    ensures
        match name {
            Some(n) => is_parameter(seg@) && n@ == parameter_name(seg@),
            None => !is_parameter(seg@),
        },
{
    if segment_is_parameter(seg) {
        let n: usize = seg.unicode_len();
        Some(seg.substring_char(1, n - 1).to_owned())
    } else {
        None
    }
}

/// Whether `prefix` can be mounted under.
pub fn check_prefix(prefix: &str) -> (ok: bool)
    ensures
        ok == valid_prefix(prefix@),
{
    let n: usize = prefix.unicode_len();
    if n == 0 {
        return false;
    }
    if prefix.get_char(0) != '/' {
        return false;
    }
    if n > 1 && prefix.get_char(n - 1) == '/' {
        return false;
    }
    let mut i: usize = 0;
    while i + 1 < n
        invariant
            i < n,
            n == prefix@.len(),
            forall|j: int| 0 <= j < i ==> !(prefix@[j] == '/' && #[trigger] prefix@[j + 1] == '/'),
        decreases n - i,
    {
        if prefix.get_char(i) == '/' && prefix.get_char(i + 1) == '/' {
            return false;
        }
        i += 1;
    }
    let segs = parse_segments(prefix);
    let mut k: usize = 0;
    while k < segs.len()
        invariant
            k <= segs.len(),
            texts(segs@) == segments(prefix@),
            forall|j: int| 0 <= j < k ==> !is_parameter(#[trigger] segments(prefix@)[j]),
        decreases segs.len() - k,
    {
        assert(texts(segs@)[k as int] == segs[k as int]@);
        if segment_is_parameter(segs[k].as_str()) {
            return false;
        }
        k += 1;
    }
    true
}

/// Whether a pattern matches a request path, both given as segments.
pub fn matches_request(pattern: &Vec<String>, request: &Vec<String>) -> (b: bool)
    ensures
        b == pattern_matches(texts(pattern@), texts(request@)),
{
    if pattern.len() != request.len() {
        return false;
    }
    let mut i: usize = 0;
    while i < pattern.len()
        invariant
            i <= pattern.len(),
            pattern.len() == request.len(),
            forall|j: int|
                0 <= j < i ==> is_parameter(#[trigger] texts(pattern@)[j]) || texts(pattern@)[j]
                    == texts(request@)[j],
        decreases pattern.len() - i,
    {
        assert(texts(pattern@)[i as int] == pattern[i as int]@);
        assert(texts(request@)[i as int] == request[i as int]@);
        if !segment_is_parameter(pattern[i].as_str()) && pattern[i] != request[i] {
            return false;
        }
        i += 1;
    }
    true
}

/// Whether pattern `a` is strictly more specific than pattern `b`.
pub fn more_specific(a: &Vec<String>, b: &Vec<String>) -> (r: bool)
    ensures
        r == outranks(texts(a@), texts(b@)),
{
    let mut i: usize = 0;
    while i < a.len() && i < b.len()
        invariant
            i <= a.len(),
            i <= b.len(),
            forall|j: int|
                0 <= j < i ==> is_parameter(#[trigger] texts(a@)[j]) == is_parameter(
                    texts(b@)[j],
                ),
        decreases a.len() - i,
    {
        assert(texts(a@)[i as int] == a[i as int]@);
        assert(texts(b@)[i as int] == b[i as int]@);
        let pa = segment_is_parameter(a[i].as_str());
        let pb = segment_is_parameter(b[i].as_str());
        if pa != pb {
            proof {
                if pb {
                    assert(outranks_at(texts(a@), texts(b@), i as int));
                } else {
                    assert forall|k: int| !outranks_at(texts(a@), texts(b@), k) by {
                        if outranks_at(texts(a@), texts(b@), k) {
                            if k > i {
                                assert(is_parameter(texts(a@)[i as int]) == is_parameter(
                                    texts(b@)[i as int],
                                ));
                            }
                        }
                    }
                }
            }
            return pb;
        }
        i += 1;
    }
    proof {
        assert forall|k: int| !outranks_at(texts(a@), texts(b@), k) by {
            if outranks_at(texts(a@), texts(b@), k) {
                assert(is_parameter(texts(a@)[k]) == is_parameter(texts(b@)[k]));
            }
        }
    }
    false
}

/// Binds each parameter of `pattern` to the request segment at its position.
pub fn bind_parameters(pattern: &Vec<String>, request: &Vec<String>) -> (out: Vec<PathParameter>)
    ensures
        parameters_view(out@) == bindings(texts(pattern@), texts(request@)),
{
    let n: usize = if pattern.len() <= request.len() {
        pattern.len()
    } else {
        request.len()
    };
    let mut out: Vec<PathParameter> = Vec::new();
    let mut i: usize = 0;
    while i < n
        invariant
            i <= n,
            n <= pattern.len(),
            n <= request.len(),
            parameters_view(out@) == bindings_upto(texts(pattern@), texts(request@), i as int),
        decreases n - i,
    {
        assert(texts(pattern@)[i as int] == pattern[i as int]@);
        assert(texts(request@)[i as int] == request[i as int]@);
        match segment_parameter_name(pattern[i].as_str()) {
            Some(name) => {
                let p = PathParameter { name, value: request[i].clone() };
                assert(parameters_view(out@.push(p)) =~= parameters_view(out@).push(p@));
                out.push(p);
            },
            None => {},
        }
        i += 1;
    }
    out
}

/// The open segment at the end of any text holds no slash.
pub proof fn lemma_pending_clean(s: Seq<char>)
    ensures
        forall|i: int| 0 <= i < pending(s).len() ==> pending(s)[i] != '/',
    decreases s.len(),
{
    if s.len() > 0 && s.last() != '/' {
        let before = pending(s.drop_last());
        lemma_pending_clean(s.drop_last());
        assert forall|i: int| 0 <= i < pending(s).len() implies pending(s)[i] != '/' by {
            if i < before.len() {
                assert(pending(s)[i] == before[i]);
            }
        }
    }
}

proof fn lemma_completed_clean(s: Seq<char>)
    ensures
        clean_segments(completed(s)),
    decreases s.len(),
{
    if s.len() > 0 {
        lemma_completed_clean(s.drop_last());
        lemma_pending_clean(s.drop_last());
    }
}

/// Every segment of a path is non-empty and free of slashes.
pub proof fn lemma_segments_clean(s: Seq<char>)
    ensures
        clean_segments(segments(s)),
{
    lemma_completed_clean(s);
    lemma_pending_clean(s);
}

proof fn lemma_append_run(x: Seq<char>, run: Seq<char>)
    requires
        forall|i: int| 0 <= i < run.len() ==> run[i] != '/',
    ensures
        completed(x + run) == completed(x),
        pending(x + run) == pending(x) + run,
    decreases run.len(),
{
    if run.len() == 0 {
        assert(x + run =~= x);
        assert(pending(x) + run =~= pending(x));
    } else {
        let init = run.drop_last();
        lemma_append_run(x, init);
        assert((x + run).drop_last() =~= x + init);
        assert((x + run).last() == run.last());
        assert(pending(x) + run =~= (pending(x) + init).push(run.last()));
    }
}

proof fn lemma_append_slash(x: Seq<char>)
    ensures
        completed(x + seq!['/']) == segments(x),
        pending(x + seq!['/']) == Seq::<char>::empty(),
{
    assert((x + seq!['/']).drop_last() =~= x);
}

proof fn lemma_segments_of_join(segs: Seq<Seq<char>>)
    requires
        clean_segments(segs),
    ensures
        segments(join(segs)) == segs,
    decreases segs.len(),
{
    if segs.len() == 0 {
        assert(segments(join(segs)) =~= segs);
    } else {
        let init = segs.drop_last();
        let last = segs.last();
        assert(clean_segments(init)) by {
            assert forall|k: int| 0 <= k < init.len() implies clean_segment(#[trigger] init[k]) by {
                assert(init[k] == segs[k]);
            }
        }
        assert(clean_segment(last));
        lemma_segments_of_join(init);
        let y = join(init) + seq!['/'];
        lemma_append_slash(join(init));
        lemma_append_run(y, last);
        assert(pending(y) + last =~= last);
        assert(init + seq![last] =~= segs);
    }
}

/// Reading a canonical path gives back the segments it was written from.
pub proof fn lemma_segments_of_render(segs: Seq<Seq<char>>)
    requires
        clean_segments(segs),
    ensures
        segments(render(segs)) == segs,
{
    if segs.len() == 0 {
        lemma_append_slash(Seq::<char>::empty());
        assert(Seq::<char>::empty() + seq!['/'] =~= seq!['/']);
        assert(segments(seq!['/']) =~= segs);
    } else {
        lemma_segments_of_join(segs);
    }
}

/// Two segment lists with the same canonical text are the same list.
pub proof fn lemma_render_injective(a: Seq<Seq<char>>, b: Seq<Seq<char>>)
    requires
        clean_segments(a),
        clean_segments(b),
        render(a) == render(b),
    ensures
        a == b,
{
    lemma_segments_of_render(a);
    lemma_segments_of_render(b);
}

/// The segments of a qualified path are those of the prefix followed by
/// those of the path.
pub proof fn lemma_qualified_segments(prefix: Seq<char>, path: Seq<char>)
    ensures
        segments(qualified_path(prefix, path)) == segments(prefix) + segments(path),
        clean_segments(segments(prefix) + segments(path)),
{
    lemma_segments_clean(prefix);
    lemma_segments_clean(path);
    lemma_segments_of_render(segments(prefix) + segments(path));
}

/// Qualifying is canonical: a qualified path mounted at the root is
/// itself.
pub proof fn lemma_qualified_canonical(prefix: Seq<char>, path: Seq<char>)
    ensures
        qualified_path(seq!['/'], qualified_path(prefix, path)) == qualified_path(prefix, path),
{
    lemma_qualified_segments(prefix, path);
    lemma_append_slash(Seq::<char>::empty());
    assert(Seq::<char>::empty() + seq!['/'] =~= seq!['/']);
    assert(segments(seq!['/']) =~= Seq::<Seq<char>>::empty());
    assert(segments(seq!['/']) + (segments(prefix) + segments(path)) =~= segments(prefix)
        + segments(path));
}

/// Two patterns have the same shape when they have literals and parameters
/// at the same positions.
pub open spec fn same_shape(a: Seq<Seq<char>>, b: Seq<Seq<char>>) -> bool {
    &&& a.len() == b.len()
    &&& forall|j: int| 0 <= j < a.len() ==> is_parameter(#[trigger] a[j]) == is_parameter(b[j])
}

/// The shape of a pattern read as a binary number, literals as ones and
/// the first segment as the highest digit.
pub open spec fn rank(p: Seq<Seq<char>>) -> nat
    decreases p.len(),
{
    if p.len() == 0 {
        0
    } else {
        2 * rank(p.drop_last()) + if is_parameter(p.last()) {
            0nat
        } else {
            1nat
        }
    }
}

/// Among patterns of one length, specificity is the order of their ranks.
pub proof fn lemma_rank_order(a: Seq<Seq<char>>, b: Seq<Seq<char>>)
    requires
        a.len() == b.len(),
    ensures
        rank(a) == rank(b) <==> same_shape(a, b),
        rank(a) > rank(b) <==> outranks(a, b),
    decreases a.len(),
{
    if a.len() == 0 {
        assert(!outranks(a, b)) by {
            assert forall|k: int| !outranks_at(a, b, k) by {}
        }
    } else {
        let a0 = a.drop_last();
        let b0 = b.drop_last();
        let n = a.len() - 1;
        lemma_rank_order(a0, b0);
        assert forall|j: int| 0 <= j < n implies a0[j] == a[j] && b0[j] == b[j] by {}
        let pa = is_parameter(a[n]);
        let pb = is_parameter(b[n]);
        assert(a.last() == a[n] && b.last() == b[n]);
        // equality of ranks
        if same_shape(a, b) {
            assert(same_shape(a0, b0)) by {
                assert forall|j: int| 0 <= j < a0.len() implies is_parameter(#[trigger] a0[j])
                    == is_parameter(b0[j]) by {
                    assert(is_parameter(a[j]) == is_parameter(b[j]));
                }
            }
            assert(pa == pb);
        }
        if same_shape(a0, b0) && pa == pb {
            assert(same_shape(a, b)) by {
                assert forall|j: int| 0 <= j < a.len() implies is_parameter(#[trigger] a[j])
                    == is_parameter(b[j]) by {
                    if j < n {
                        assert(is_parameter(a0[j]) == is_parameter(b0[j]));
                    }
                }
            }
        }
        // order of ranks
        if outranks(a, b) {
            let k = choose|k: int| outranks_at(a, b, k);
            if k < n {
                assert(outranks_at(a0, b0, k)) by {
                    assert forall|j: int| 0 <= j < k implies is_parameter(#[trigger] a0[j])
                        == is_parameter(b0[j]) by {
                        assert(is_parameter(a[j]) == is_parameter(b[j]));
                    }
                }
            } else {
                assert(same_shape(a0, b0)) by {
                    assert forall|j: int| 0 <= j < a0.len() implies is_parameter(
                        #[trigger] a0[j],
                    ) == is_parameter(b0[j]) by {
                        assert(is_parameter(a[j]) == is_parameter(b[j]));
                    }
                }
                assert(!pa && pb);
            }
        }
        if outranks(a0, b0) {
            let k = choose|k: int| outranks_at(a0, b0, k);
            assert(outranks_at(a, b, k)) by {
                assert forall|j: int| 0 <= j < k implies is_parameter(#[trigger] a[j])
                    == is_parameter(b[j]) by {
                    assert(is_parameter(a0[j]) == is_parameter(b0[j]));
                }
            }
        }
        if same_shape(a0, b0) && !pa && pb {
            assert(outranks_at(a, b, n)) by {
                assert forall|j: int| 0 <= j < n implies is_parameter(#[trigger] a[j])
                    == is_parameter(b[j]) by {
                    assert(is_parameter(a0[j]) == is_parameter(b0[j]));
                }
            }
        }
    }
}

} // verus!
