//! Anchor target resolution: a target beginning with `/` is resolved against
//! the origin of the owning page's URL (scheme and host, up to the first `/`
//! after the scheme separator); any other target is taken as it stands.

use vstd::prelude::*;
use vstd::string::*;

use crate::text::{
    append_all, chars_of, copy_range, eq_pred, find_at, find_char_at, find_sub, find_sub_at,
    lemma_find_at, lemma_find_sub_at, match_at, string_of,
};

verus! {

/// The resolved form of the anchor target `target` on a page fetched from
/// `base`: a target not starting with `/` is already absolute (or left as
/// it stands); one starting with `/` is prefixed with the origin of `base`,
/// everything up to the first `/` after the `//` separator. A base without
/// a `//` separator offers no origin, so such a target cannot be resolved.
pub open spec fn resolve_anchor_spec(base: Seq<char>, target: Seq<char>) -> Option<Seq<char>> {
    if target.len() == 0 || target[0] != '/' {
        Some(target)
    } else {
        let p = find_sub_at(base, "//"@, 0);
        if p == base.len() {
            None
        } else {
            let q = find_at(base, p + 2, eq_pred('/'));
            Some(base.take(q) + target)
        }
    }
}

/// Resolves the anchor target `target` against the page URL `base`.
pub fn resolve_anchor(base: &str, target: &str) -> (r: Option<String>)
    ensures
        (r is None) == (resolve_anchor_spec(base@, target@) is None),
        r matches Some(v) ==> resolve_anchor_spec(base@, target@) == Some(v@),
{
    let t = chars_of(target);
    if t.len() == 0 || t[0] != '/' {
        return Some(String::from_str(target));
    }
    let b = chars_of(base);
    let pat = chars_of("//");
    let p = find_sub(&b, &pat, 0);
    proof {
        lemma_find_sub_at(b@, "//"@, 0);
    }
    if p == b.len() {
        return None;
    }
    proof {
        reveal_strlit("//");
        assert(match_at(b@, "//"@, p as int));
    }
    let q = find_char_at(&b, p + 2, '/');
    proof {
        lemma_find_at(b@, p + 2, eq_pred('/'));
    }
    let mut out = copy_range(&b, 0, q);
    proof {
        assert(out@ =~= b@.take(q as int));
    }
    append_all(&mut out, &t);
    Some(string_of(&out))
}

} // verus!
