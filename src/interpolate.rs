//! Substitution of `{{key}}` tokens with the values of the active environment.
use vstd::prelude::*;
use vstd::string::*;

verus! {

/// One variable of an environment; an entry without a text key or value is ignored.
pub struct Variable {
    pub key: Option<String>,
    pub value: Option<String>,
}

/// Every non-overlapping occurrence of the non-empty pattern `p` in `s`, scanned
/// from the left, replaced by `r`; replaced text is not scanned again.
pub open spec fn replace_all(s: Seq<char>, p: Seq<char>, r: Seq<char>) -> Seq<char>
    decreases s.len(),
{
    if p.len() == 0 || s.len() < p.len() {
        s
    } else if s.take(p.len() as int) == p {
        r + replace_all(s.skip(p.len() as int), p, r)
    } else {
        seq![s[0]] + replace_all(s.drop_first(), p, r)
    }
}

/// Whether `p` occurs in `s`.
pub open spec fn occurs(s: Seq<char>, p: Seq<char>) -> bool {
    exists|i: int| 0 <= i && i + p.len() <= s.len() && #[trigger] s.subrange(i, i + p.len()) == p
}

/// The token that stands for a variable.
pub open spec fn token_of(key: Seq<char>) -> Seq<char> {
    "{{"@ + key + "}}"@
}

/// Whether a variable takes part in substitution.
pub open spec fn usable(v: Variable) -> bool {
    v.key is Some && v.value is Some
}

/// The text after substituting each usable variable in turn, in list order.
pub open spec fn interpolated(text: Seq<char>, vars: Seq<Variable>) -> Seq<char>
    decreases vars.len(),
{
    if vars.len() == 0 {
        text
    } else {
        let t = interpolated(text, vars.drop_last());
        let v = vars.last();
        if usable(v) {
            replace_all(t, token_of(v.key->Some_0@), v.value->Some_0@)
        } else {
            t
        }
    }
}

/// Relies on `str::replace`: every non-overlapping occurrence of a non-empty
/// pattern, scanned from the left, replaced.
#[verifier::external_body]
fn replace(s: &str, p: &str, r: &str) -> (out: String)
    requires
        p@.len() > 0,
    ensures
        out@ == replace_all(s@, p@, r@),
{
    s.replace(p, r)
}

/// Substitutes the variables of the active environment into `text`; with no active
/// environment the text comes back unchanged. Unknown tokens are left as they are.
pub fn interpolate_variables(text: String, active: &Option<Vec<Variable>>) -> (r: String)
    ensures
        r@ == match active {
            Some(vs) => interpolated(text@, vs@),
            None => text@,
        },
{
    match active {
        None => text,
        Some(vars) => {
            let mut result = text;
            let mut i: usize = 0;
            while i < vars.len()
                invariant
                    0 <= i <= vars.len(),
                    result@ == interpolated(text@, vars@.take(i as int)),
                decreases vars.len() - i,
            {
                assert(vars@.take(i + 1).drop_last() == vars@.take(i as int));
                let v = &vars[i];
                assert(vars@.take(i + 1).last() == v);
                match (&v.key, &v.value) {
                    (Some(k), Some(val)) => {
                        let open = String::from_str("{{");
                        let token = open.concat(k.as_str()).concat("}}");
                        proof {
                            reveal_strlit("{{");
                            reveal_strlit("}}");
                            assert(token@ == token_of(k@));
                        }
                        result = replace(result.as_str(), token.as_str(), val.as_str());
                    },
                    _ => {},
                }
                i += 1;
            }
            assert(vars@.take(vars.len() as int) =~= vars@);
            result
        },
    }
}

proof fn lemma_replace_absent(s: Seq<char>, p: Seq<char>, r: Seq<char>)
    requires
        !occurs(s, p),
    ensures
        replace_all(s, p, r) == s,
    decreases s.len(),
{
    if p.len() > 0 && s.len() >= p.len() {
        assert(s.subrange(0int, 0int + p.len()) != p);
        assert(s.subrange(0, p.len() as int) == s.take(p.len() as int));
        let t = s.drop_first();
        assert forall|i: int| 0 <= i && i + p.len() <= t.len() implies #[trigger] t.subrange(
            i,
            i + p.len(),
        ) != p by {
            assert(t.subrange(i, i + p.len()) =~= s.subrange(i + 1, i + 1 + p.len()));
        }
        lemma_replace_absent(t, p, r);
        assert(seq![s[0]] + t =~= s);
    }
}

proof fn lemma_interpolated_fixed(t: Seq<char>, vars: Seq<Variable>)
    requires
        forall|i: int|
            0 <= i < vars.len() && usable(#[trigger] vars[i]) ==> !occurs(
                t,
                token_of(vars[i].key->Some_0@),
            ),
    ensures
        interpolated(t, vars) == t,
    decreases vars.len(),
{
    if vars.len() > 0 {
        let d = vars.drop_last();
        assert forall|i: int| 0 <= i < d.len() && usable(#[trigger] d[i]) implies !occurs(
            t,
            token_of(d[i].key->Some_0@),
        ) by {
            assert(d[i] == vars[i]);
        }
        lemma_interpolated_fixed(t, d);
        let v = vars.last();
        if usable(v) {
            assert(vars[vars.len() - 1] == v);
            lemma_replace_absent(t, token_of(v.key->Some_0@), v.value->Some_0@);
        }
    }
}

/// Interpolation is idempotent once no token of a usable variable remains: a
/// second pass over the result changes nothing.
pub proof fn lemma_interpolation_idempotent(text: Seq<char>, vars: Seq<Variable>)
    requires
        forall|i: int|
            0 <= i < vars.len() && usable(#[trigger] vars[i]) ==> !occurs(
                interpolated(text, vars),
                token_of(vars[i].key->Some_0@),
            ),
    ensures
        interpolated(interpolated(text, vars), vars) == interpolated(text, vars),
{
    lemma_interpolated_fixed(interpolated(text, vars), vars);
}

} // verus!
