//! Route templates compiled once at registration time: each non-empty
//! `/`-separated segment becomes an exact literal or, when it starts
//! with `:`, a named capturing placeholder. A compiled pattern matches a
//! whole path, never a prefix, and captures bind in left-to-right order.

use vstd::prelude::*;
use crate::text::{spec_split_char, split_char, str_eq};

verus! {

/// The mathematical content of a compiled segment.
pub enum SegView {
    Lit(Seq<char>),
    Param(Seq<char>),
}

/// One compiled segment of a route template.
pub enum Segment {
    Literal(String),
    Parameter(String),
}

impl View for Segment {
    type V = SegView;

    open spec fn view(&self) -> SegView {
        match self {
            Segment::Literal(s) => SegView::Lit(s@),
            Segment::Parameter(s) => SegView::Param(s@),
        }
    }
}

/// The segment-wise view of a compiled pattern.
pub open spec fn spec_pattern_view(p: Seq<Segment>) -> Seq<SegView> {
    p.map_values(|s: Segment| s@)
}

/// Compiles already-split template parts: empty parts are dropped, parts
/// starting with `:` capture, and the rest match literally.
pub open spec fn spec_segs(parts: Seq<Seq<char>>) -> Seq<SegView>
    decreases parts.len(),
{
    if parts.len() == 0 {
        Seq::empty()
    } else {
        let rest = spec_segs(parts.skip(1));
        if parts[0].len() == 0 {
            rest
        } else if parts[0][0] == ':' {
            seq![SegView::Param(parts[0].skip(1))].add(rest)
        } else {
            seq![SegView::Lit(parts[0])].add(rest)
        }
    }
}

/// The compiled form of a route template.
pub open spec fn spec_compile(t: Seq<char>) -> Seq<SegView> {
    spec_segs(spec_split_char(t, '/'))
}

/// The capture names of a compiled pattern, in left-to-right order.
pub open spec fn spec_params_of(segs: Seq<SegView>) -> Seq<Seq<char>>
    decreases segs.len(),
{
    if segs.len() == 0 {
        Seq::empty()
    } else {
        let rest = spec_params_of(segs.skip(1));
        match segs[0] {
            SegView::Param(n) => seq![n].add(rest),
            SegView::Lit(_) => rest,
        }
    }
}

/// The parameter names a template declares, in left-to-right order.
pub open spec fn spec_param_names(t: Seq<char>) -> Seq<Seq<char>> {
    spec_params_of(spec_compile(t))
}

/// Whether one path segment satisfies one pattern segment: literals
/// match exactly, placeholders take any non-empty segment.
pub open spec fn spec_seg_match(seg: SegView, s: Seq<char>) -> bool {
    match seg {
        SegView::Lit(l) => s == l,
        SegView::Param(_) => s.len() > 0,
    }
}

/// Whether a compiled pattern matches a whole path: the path must split
/// into a leading empty piece (the text before the first `/`) followed
/// by exactly one piece per pattern segment, each satisfying its
/// segment.
pub open spec fn spec_path_match(segs: Seq<SegView>, path: Seq<char>) -> bool {
    let parts = spec_split_char(path, '/');
    parts.len() == segs.len() + 1 && parts[0].len() == 0 && (forall|i: int|
        0 <= i < segs.len() ==> #[trigger] spec_seg_match(segs[i], parts[i + 1]))
}

/// The parameter bindings a match produces: each placeholder name paired
/// with the path piece at its position. `parts` are the path pieces
/// after the leading empty one.
pub open spec fn spec_bindings(segs: Seq<SegView>, parts: Seq<Seq<char>>) -> Seq<
    (Seq<char>, Seq<char>),
>
    decreases segs.len(),
{
    if segs.len() == 0 {
        Seq::empty()
    } else {
        let rest = spec_bindings(segs.skip(1), parts.skip(1));
        match segs[0] {
            SegView::Param(n) => seq![(n, parts[0])].add(rest),
            SegView::Lit(_) => rest,
        }
    }
}

/// The name a placeholder segment captures under; for a literal
/// segment, its text.
pub open spec fn spec_param_name(seg: SegView) -> Seq<char> {
    match seg {
        SegView::Param(n) => n,
        SegView::Lit(l) => l,
    }
}

/// A name that no placeholder segment declares is never among the keys
/// a match binds.
pub proof fn lemma_bindings_keys(segs: Seq<SegView>, parts: Seq<Seq<char>>, k: Seq<char>)
    requires
        forall|l: int|
            0 <= l < segs.len() ==> !((#[trigger] segs[l]) is Param && spec_param_name(segs[l])
                == k),
    ensures
        forall|j: int|
            0 <= j < spec_bindings(segs, parts).len() ==> (#[trigger] spec_bindings(
                segs,
                parts,
            )[j]).0 != k,
    decreases segs.len(),
{
    if segs.len() == 0 {
    } else {
        assert forall|l: int|
            0 <= l < segs.skip(1).len() implies !((#[trigger] segs.skip(1)[l]) is Param
            && spec_param_name(segs.skip(1)[l]) == k) by {
            assert(segs.skip(1)[l] == segs[l + 1]);
        }
        lemma_bindings_keys(segs.skip(1), parts.skip(1), k);
        let rest = spec_bindings(segs.skip(1), parts.skip(1));
        match segs[0] {
            SegView::Param(n) => {
                assert(n != k);
                let bs = spec_bindings(segs, parts);
                assert(bs =~= seq![(n, parts[0])] + rest);
                assert forall|j: int| 0 <= j < bs.len() implies (#[trigger] bs[j]).0 != k by {
                    if j > 0 {
                        assert(bs[j] == rest[j - 1]);
                    }
                }
            },
            SegView::Lit(_) => {
            },
        }
    }
}

/// Compiles a route template into its pattern and its parameter names.
pub fn compile_pattern(template: &str) -> (r: (Vec<Segment>, Vec<String>))
    ensures
        spec_pattern_view(r.0@) == spec_compile(template@),
        r.1.deep_view() == spec_param_names(template@),
{
    let parts = split_char(template, '/');
    let ghost all = parts.deep_view();
    let n = parts.len();
    let mut pattern: Vec<Segment> = Vec::new();
    let mut params: Vec<String> = Vec::new();
    let mut i: usize = 0;
    proof {
        assert(all.skip(0) =~= all);
        assert(spec_pattern_view(pattern@) =~= Seq::<SegView>::empty());
        assert(params.deep_view() =~= Seq::<Seq<char>>::empty());
        assert(spec_segs(all) =~= spec_pattern_view(pattern@) + spec_segs(all.skip(0)));
        assert(spec_params_of(spec_segs(all)) =~= params.deep_view() + spec_params_of(
            spec_segs(all.skip(0)),
        ));
    }
    while i < n
        invariant
            n == parts.len(),
            all == parts.deep_view(),
            i <= n,
            spec_segs(all) =~= spec_pattern_view(pattern@) + spec_segs(all.skip(i as int)),
            spec_params_of(spec_segs(all)) =~= params.deep_view() + spec_params_of(
                spec_segs(all.skip(i as int)),
            ),
        decreases n - i,
    {
        let ghost rem = all.skip(i as int);
        let ghost old_pat = spec_pattern_view(pattern@);
        let ghost old_params = params.deep_view();
        proof {
            assert(rem.len() > 0);
            assert(rem[0] == all[i as int]);
            assert(rem.skip(1) =~= all.skip(i + 1));
            assert(parts.deep_view()[i as int] == parts@[i as int]@);
        }
        let part = &parts[i];
        let plen = part.as_str().unicode_len();
        if plen == 0 {
            proof {
                assert(spec_segs(rem) =~= spec_segs(all.skip(i + 1)));
            }
        } else if part.as_str().get_char(0) == ':' {
            let name = part.as_str().substring_char(1, plen);
            proof {
                assert(name@ =~= rem[0].skip(1));
            }
            params.push(name.to_owned());
            pattern.push(Segment::Parameter(name.to_owned()));
            proof {
                let seg = SegView::Param(rem[0].skip(1));
                assert(spec_segs(rem) =~= seq![seg] + spec_segs(all.skip(i + 1)));
                assert(spec_pattern_view(pattern@) =~= old_pat + seq![seg]);
                assert(params.deep_view() =~= old_params + seq![rem[0].skip(1)]);
                assert(spec_params_of(seq![seg] + spec_segs(all.skip(i + 1))) =~= seq![
                    rem[0].skip(1),
                ] + spec_params_of(spec_segs(all.skip(i + 1)))) by {
                    let joined = seq![seg] + spec_segs(all.skip(i + 1));
                    assert(joined.skip(1) =~= spec_segs(all.skip(i + 1)));
                }
                assert(spec_segs(all) =~= spec_pattern_view(pattern@) + spec_segs(
                    all.skip(i + 1),
                ));
                assert(spec_params_of(spec_segs(all)) =~= params.deep_view() + spec_params_of(
                    spec_segs(all.skip(i + 1)),
                ));
            }
        } else {
            pattern.push(Segment::Literal(part.clone()));
            proof {
                let seg = SegView::Lit(rem[0]);
                assert(spec_segs(rem) =~= seq![seg] + spec_segs(all.skip(i + 1)));
                assert(spec_pattern_view(pattern@) =~= old_pat + seq![seg]);
                assert(spec_params_of(seq![seg] + spec_segs(all.skip(i + 1)))
                    =~= spec_params_of(spec_segs(all.skip(i + 1)))) by {
                    let joined = seq![seg] + spec_segs(all.skip(i + 1));
                    assert(joined.skip(1) =~= spec_segs(all.skip(i + 1)));
                }
                assert(spec_segs(all) =~= spec_pattern_view(pattern@) + spec_segs(
                    all.skip(i + 1),
                ));
                assert(spec_params_of(spec_segs(all)) =~= params.deep_view() + spec_params_of(
                    spec_segs(all.skip(i + 1)),
                ));
            }
        }
        i = i + 1;
    }
    proof {
        assert(all.skip(n as int) =~= Seq::<Seq<char>>::empty());
        assert(spec_segs(all.skip(n as int)) =~= Seq::<SegView>::empty());
        assert(spec_pattern_view(pattern@) =~= spec_segs(all));
        assert(spec_params_of(spec_segs(all)) =~= params.deep_view());
    }
    (pattern, params)
}

/// Whether one compiled segment accepts one path piece.
fn seg_match(seg: &Segment, piece: &str) -> (r: bool)
    ensures
        r == spec_seg_match(seg@, piece@),
{
    match seg {
        Segment::Literal(l) => str_eq(l.as_str(), piece),
        Segment::Parameter(_) => !piece.is_empty(),
    }
}

/// Whether a compiled pattern matches a whole path.
pub fn path_match(pattern: &Vec<Segment>, path: &str) -> (r: bool)
    ensures
        r == spec_path_match(spec_pattern_view(pattern@), path@),
{
    let ghost segs = spec_pattern_view(pattern@);
    let parts = split_char(path, '/');
    proof {
        assert(parts.deep_view().len() == parts.len());
        assert(segs.len() == pattern@.len());
    }
    if parts.len() - 1 != pattern.len() {
        return false;
    }
    proof {
        assert(parts.deep_view()[0] == parts@[0]@);
    }
    if !parts[0].as_str().is_empty() {
        return false;
    }
    let n = pattern.len();
    let mut i: usize = 0;
    while i < n
        invariant
            n == pattern.len(),
            segs == spec_pattern_view(pattern@),
            parts.deep_view() == spec_split_char(path@, '/'),
            parts.len() == n + 1,
            i <= n,
            forall|j: int|
                0 <= j < i ==> #[trigger] spec_seg_match(segs[j], spec_split_char(path@, '/')[j + 1]),
        decreases n - i,
    {
        proof {
            assert(parts.deep_view()[i + 1] == parts@[i + 1]@);
            assert(segs[i as int] == pattern@[i as int]@);
        }
        if !seg_match(&pattern[i], parts[i + 1].as_str()) {
            return false;
        }
        i = i + 1;
    }
    true
}

/// A compiled route: its template, its pattern rendered as regex text,
/// its compiled segments, its capture names, and the handler it binds.
pub struct Route<H> {
    uri: String,
    regex: String,
    pattern: Vec<Segment>,
    parameters: Vec<String>,
    action: H,
}

impl<H> Route<H> {
    /// The template this route was registered under.
    pub closed spec fn spec_uri(&self) -> Seq<char> {
        self.uri@
    }

    /// The pattern rendered as anchored regex text.
    pub closed spec fn spec_regex(&self) -> Seq<char> {
        self.regex@
    }

    /// The compiled pattern.
    pub closed spec fn spec_pattern(&self) -> Seq<SegView> {
        spec_pattern_view(self.pattern@)
    }

    /// The capture names, in left-to-right order.
    pub closed spec fn spec_parameters(&self) -> Seq<Seq<char>> {
        self.parameters.deep_view()
    }

    /// The bound handler.
    pub closed spec fn spec_action(&self) -> H {
        self.action
    }

    /// The pattern, the regex text, and the capture names are exactly
    /// what compiling the template yields.
    pub open spec fn wf(&self) -> bool {
        self.spec_pattern() == spec_compile(self.spec_uri()) && self.spec_parameters()
            == spec_param_names(self.spec_uri()) && self.spec_regex()
            == crate::formatter::spec_format_regex(self.spec_uri())
    }

    /// Compiles `uri` once and binds `action` to the result.
    pub fn new(uri: &str, action: H) -> (r: Route<H>)
        ensures
            r.wf(),
            r.spec_uri() == uri@,
            r.spec_action() == action,
    {
        let mut parameters: Vec<String> = Vec::new();
        let regex = crate::formatter::format_regex(uri, &mut parameters);
        let (pattern, _) = compile_pattern(uri);
        proof {
            assert(parameters.deep_view() =~= spec_param_names(uri@));
        }
        Route { uri: uri.to_owned(), regex, pattern, parameters, action }
    }

    pub fn get_uri(&self) -> (r: &str)
        ensures
            r@ == self.spec_uri(),
    {
        self.uri.as_str()
    }

    /// The pattern rendered as anchored regex text.
    pub fn get_regex(&self) -> (r: &str)
        ensures
            r@ == self.spec_regex(),
    {
        self.regex.as_str()
    }

    /// The bound handler.
    pub fn get_action(&self) -> (r: &H)
        ensures
            *r == self.spec_action(),
    {
        &self.action
    }

    /// Whether the pattern captures anything.
    pub fn has_parameters(&self) -> (r: bool)
        ensures
            r == (self.spec_parameters().len() > 0),
    {
        self.parameters.len() > 0
    }

    pub fn get_parameters(&self) -> (r: &Vec<String>)
        ensures
            r.deep_view() == self.spec_parameters(),
    {
        &self.parameters
    }

    /// Whether this route's pattern matches a whole path.
    pub fn matches(&self, path: &str) -> (r: bool)
        ensures
            r == spec_path_match(self.spec_pattern(), path@),
    {
        path_match(&self.pattern, path)
    }

    /// The compiled pattern's segments.
    pub fn get_pattern(&self) -> (r: &Vec<Segment>)
        ensures
            spec_pattern_view(r@) == self.spec_pattern(),
    {
        &self.pattern
    }
}

} // verus!
