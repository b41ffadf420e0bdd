//! The textual form of a compiled route template: an anchored
//! regular-expression string in which each placeholder segment becomes a
//! capturing group and each literal segment appears verbatim. The
//! matcher itself works on compiled segments; this rendering states the
//! same pattern as one string.

use vstd::prelude::*;
use crate::route::{spec_param_names, spec_params_of, spec_segs, SegView};
use crate::text::{split_char, spec_split_char};

verus! {

/// The regex text of already-split template parts: empty parts are
/// dropped, placeholder parts become `/([^/]+)`, and literal parts
/// follow a slash verbatim.
pub open spec fn spec_regex_parts(parts: Seq<Seq<char>>) -> Seq<char>
    decreases parts.len(),
{
    if parts.len() == 0 {
        Seq::empty()
    } else {
        let rest = spec_regex_parts(parts.skip(1));
        if parts[0].len() == 0 {
            rest
        } else if parts[0][0] == ':' {
            "/([^/]+)"@ + rest
        } else {
            "/"@ + parts[0] + rest
        }
    }
}

/// The anchored regex text of a route template.
pub open spec fn spec_format_regex(t: Seq<char>) -> Seq<char> {
    "^"@ + spec_regex_parts(spec_split_char(t, '/'))
}

/// Renders the anchored regex text of `path` and appends the template's
/// parameter names, in left-to-right order, to `params`.
pub fn format_regex(path: &str, params: &mut Vec<String>) -> (r: String)
    ensures
        r@ == spec_format_regex(path@),
        final(params).deep_view() == old(params).deep_view() + spec_param_names(path@),
{
    let parts = split_char(path, '/');
    let ghost all = parts.deep_view();
    let n = parts.len();
    let mut regex = String::new();
    regex.append("^");
    let ghost pre = regex@;
    let mut i: usize = 0;
    proof {
        assert(all.skip(0) =~= all);
        assert(regex@ + spec_regex_parts(all.skip(0)) =~= pre + spec_regex_parts(all));
        assert(params.deep_view() + spec_params_of(spec_segs(all.skip(0))) =~= old(
            params,
        ).deep_view() + spec_params_of(spec_segs(all)));
    }
    while i < n
        invariant
            n == parts.len(),
            all == parts.deep_view(),
            i <= n,
            pre == "^"@,
            regex@ + spec_regex_parts(all.skip(i as int)) == pre + spec_regex_parts(all),
            params.deep_view() + spec_params_of(spec_segs(all.skip(i as int))) == old(
                params,
            ).deep_view() + spec_params_of(spec_segs(all)),
        decreases n - i,
    {
        let ghost rem = all.skip(i as int);
        proof {
            assert(rem.len() > 0);
            assert(rem[0] == all[i as int]);
            assert(rem.skip(1) =~= all.skip(i + 1));
            assert(parts.deep_view()[i as int] == parts@[i as int]@);
        }
        let part = parts[i].as_str();
        let plen = part.unicode_len();
        if plen == 0 {
            proof {
                assert(spec_regex_parts(rem) =~= spec_regex_parts(all.skip(i + 1)));
                assert(spec_segs(rem) =~= spec_segs(all.skip(i + 1)));
            }
        } else if part.get_char(0) == ':' {
            regex.append("/([^/]+)");
            let name = part.substring_char(1, plen);
            params.push(name.to_owned());
            proof {
                let seg = SegView::Param(rem[0].skip(1));
                assert(name@ =~= rem[0].skip(1));
                assert(spec_regex_parts(rem) =~= "/([^/]+)"@ + spec_regex_parts(
                    all.skip(i + 1),
                ));
                assert(spec_segs(rem) =~= seq![seg] + spec_segs(all.skip(i + 1)));
                assert(spec_params_of(seq![seg] + spec_segs(all.skip(i + 1))) =~= seq![
                    rem[0].skip(1),
                ] + spec_params_of(spec_segs(all.skip(i + 1)))) by {
                    let joined = seq![seg] + spec_segs(all.skip(i + 1));
                    assert(joined.skip(1) =~= spec_segs(all.skip(i + 1)));
                }
                assert(regex@ + spec_regex_parts(all.skip(i + 1)) =~= pre + spec_regex_parts(
                    all,
                ));
                assert(params.deep_view() + spec_params_of(spec_segs(all.skip(i + 1))) =~= old(
                    params,
                ).deep_view() + spec_params_of(spec_segs(all)));
            }
        } else {
            regex.append("/");
            regex.append(part);
            proof {
                let seg = SegView::Lit(rem[0]);
                assert(spec_regex_parts(rem) =~= "/"@ + rem[0] + spec_regex_parts(
                    all.skip(i + 1),
                ));
                assert(spec_segs(rem) =~= seq![seg] + spec_segs(all.skip(i + 1)));
                assert(spec_params_of(seq![seg] + spec_segs(all.skip(i + 1)))
                    =~= spec_params_of(spec_segs(all.skip(i + 1)))) by {
                    let joined = seq![seg] + spec_segs(all.skip(i + 1));
                    assert(joined.skip(1) =~= spec_segs(all.skip(i + 1)));
                }
                assert(regex@ + spec_regex_parts(all.skip(i + 1)) =~= pre + spec_regex_parts(
                    all,
                ));
            }
        }
        i = i + 1;
    }
    proof {
        assert(all.skip(n as int) =~= Seq::<Seq<char>>::empty());
        assert(spec_regex_parts(all.skip(n as int)) =~= Seq::<char>::empty());
        assert(spec_segs(all.skip(n as int)) =~= Seq::<SegView>::empty());
        assert(regex@ =~= regex@ + spec_regex_parts(all.skip(n as int)));
        assert(params.deep_view() =~= params.deep_view() + spec_params_of(
            spec_segs(all.skip(n as int)),
        ));
    }
    regex
}

} // verus!
