use vstd::prelude::*;
use crate::text::chars_of;
use crate::text::string_from;
use crate::text::split_on;
use crate::text::trim;
use crate::text::has_prefix;
use crate::text::split_char;
use crate::text::trim_ws;
use crate::text::starts_with;
use crate::text::string_views;
use crate::text::lemma_string_views_push;

verus! {

/// The statements among the first `n` pieces of a migration script: each
/// piece trimmed, the empty ones and those that start with `--` left out.
pub open spec fn statements_upto(pieces: Seq<Seq<char>>, n: int) -> Seq<Seq<char>>
    decreases n,
{
    if n <= 0 {
        seq![]
    } else {
        let rest = statements_upto(pieces, n - 1);
        let t = trim_ws(pieces[n - 1]);
        if t.len() > 0 && !starts_with(t, "--"@) {
            rest.push(t)
        } else {
            rest
        }
    }
}

/// The statements of a migration script, split at `;`.
pub fn migration_statements(sql: &str) -> (r: Vec<String>)
    ensures
        string_views(r@) == statements_upto(split_char(sql@, ';'), split_char(sql@, ';').len() as int),
{
    let pieces = split_on(&chars_of(sql), ';');
    let ghost ps = split_char(sql@, ';');
    let dashes = chars_of("--");
    let mut r: Vec<String> = Vec::new();
    let mut i: usize = 0;
    assert(string_views(r@) =~= Seq::<Seq<char>>::empty());
    while i < pieces.len()
        invariant
            i <= pieces@.len(),
            ps == split_char(sql@, ';'),
            pieces@.len() == ps.len(),
            forall|k: int| 0 <= k < pieces@.len() ==> #[trigger] pieces@[k]@ == ps[k],
            dashes@ == "--"@,
            string_views(r@) == statements_upto(ps, i as int),
        decreases pieces@.len() - i,
    {
        let t = trim(&pieces[i]);
        assert(t@ == trim_ws(ps[i as int]));
        if t.len() > 0 && !has_prefix(&t, &dashes) {
            let ghost before = r@;
            let s = string_from(&t);
            r.push(s);
            proof {
                lemma_string_views_push(before, s);
            }
        }
        i = i + 1;
    }
    r
}

} // verus!
