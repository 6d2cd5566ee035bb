//! Wildcard expansion: a preprocessing pass replacing each `*` placeholder in
//! a notation string with the next unused chord symbol, in order.
//!
//! Supplying more chord symbols than placeholders is accepted silently: the
//! surplus symbols are never consumed.  More placeholders than symbols is an
//! error.

use vstd::prelude::*;
use vstd::string::*;

use crate::error::CompingError;

verus! {

/// How many wildcard placeholders a notation holds.
pub open spec fn star_count(s: Seq<char>) -> nat
    decreases s.len(),
{
    if s.len() == 0 {
        0
    } else {
        (if s[0] == '*' {
            1nat
        } else {
            0nat
        }) + star_count(s.skip(1))
    }
}

/// The expansion of a notation against a sequence of chord symbols: each `*`
/// is replaced by the next unused symbol, every other character passes
/// through unchanged.  `None` when the placeholders outnumber the symbols.
pub open spec fn expand_spec(s: Seq<char>, chords: Seq<Seq<char>>) -> Option<Seq<char>>
    decreases s.len(),
{
    if s.len() == 0 {
        Some(Seq::empty())
    } else if s[0] == '*' {
        if chords.len() == 0 {
            None
        } else {
            match expand_spec(s.skip(1), chords.skip(1)) {
                Some(rest) => Some(chords[0] + rest),
                None => None,
            }
        }
    } else {
        match expand_spec(s.skip(1), chords) {
            Some(rest) => Some(seq![s[0]] + rest),
            None => None,
        }
    }
}

/// Law: expansion succeeds exactly when the placeholders do not outnumber
/// the supplied chord symbols, and the expansion consumes exactly the first
/// `star_count` symbols — the surplus never matters.
pub proof fn lemma_expand_exact(s: Seq<char>, chords: Seq<Seq<char>>)
    ensures
        expand_spec(s, chords) is Some <==> star_count(s) <= chords.len(),
        star_count(s) <= chords.len() ==> expand_spec(s, chords) == expand_spec(
            s,
            chords.take(star_count(s) as int),
        ),
    decreases s.len(),
{
    if s.len() == 0 {
        assert(chords.take(0) =~= Seq::<Seq<char>>::empty());
    } else if s[0] == '*' {
        if chords.len() == 0 {
        } else {
            lemma_expand_exact(s.skip(1), chords.skip(1));
            if star_count(s) <= chords.len() {
                let k = star_count(s) as int;
                let sub = chords.take(k);
                assert(sub[0] == chords[0]);
                assert(sub.skip(1) =~= chords.skip(1).take(k - 1));
                lemma_expand_exact(s.skip(1), chords.skip(1).take(k - 1));
                lemma_expand_take_more(s.skip(1), chords.skip(1), k - 1);
            }
        }
    } else {
        lemma_expand_exact(s.skip(1), chords);
        if star_count(s) <= chords.len() {
            let k = star_count(s) as int;
            lemma_expand_take_more(s.skip(1), chords, k);
        }
    }
}

/// Expansions against two symbol sequences that agree on the first
/// `star_count` entries agree.
proof fn lemma_expand_take_more(s: Seq<char>, chords: Seq<Seq<char>>, k: int)
    requires
        star_count(s) <= k <= chords.len(),
    ensures
        expand_spec(s, chords) == expand_spec(s, chords.take(k)),
    decreases s.len(),
{
    if s.len() == 0 {
    } else if s[0] == '*' {
        assert(chords.take(k)[0] == chords[0]);
        assert(chords.take(k).skip(1) =~= chords.skip(1).take(k - 1));
        lemma_expand_take_more(s.skip(1), chords.skip(1), k - 1);
        lemma_expand_exact(s.skip(1), chords.skip(1));
        lemma_expand_exact(s.skip(1), chords.skip(1).take(k - 1));
    } else {
        lemma_expand_take_more(s.skip(1), chords, k);
    }
}

/// Replace each `*` in the notation by the next unused chord symbol.
/// Fails with `WildcardExhausted` exactly when the notation holds more
/// placeholders than `chords` has entries.
pub fn expand(notation: &str, chords: &Vec<String>) -> (r: Result<String, CompingError>)
    ensures
        r is Ok <==> expand_spec(notation@, chords.deep_view()) is Some,
        r matches Ok(out) ==> Some(out@) == expand_spec(notation@, chords.deep_view()),
        r matches Err(e) ==> e is WildcardExhausted,
{
    let ghost s = notation@;
    let ghost cv = chords.deep_view();
    let n = notation.unicode_len();
    let mut out = String::new();
    let mut used: usize = 0;
    let mut i: usize = 0;
    proof {
        assert(s.skip(0) =~= s);
        assert(cv.skip(0) =~= cv);
    }
    while i < n
        invariant
            s == notation@,
            n == s.len(),
            cv == chords.deep_view(),
            i <= n,
            used <= chords.len(),
            cv.len() == chords@.len(),
            expand_spec(s.skip(i as int), cv.skip(used as int)) matches Some(rest) ==> expand_spec(
                s,
                cv,
            ) == Some(out@ + rest),
            expand_spec(s.skip(i as int), cv.skip(used as int)) is None ==> expand_spec(s, cv)
                is None,
        decreases n - i,
    {
        let ghost iv = i as int;
        let ghost uv = used as int;
        let c = notation.get_char(i);
        proof {
            assert(s.skip(iv)[0] == s[iv]);
            assert(s.skip(iv).skip(1) =~= s.skip(iv + 1));
        }
        if c == '*' {
            if used < chords.len() {
                let symbol: &String = &chords[used];
                proof {
                    assert(cv.skip(uv)[0] == cv[uv]);
                    assert(cv.skip(uv).skip(1) =~= cv.skip(uv + 1));
                    assert(cv[uv] == chords@[uv]@);
                }
                let ghost out0 = out@;
                out.append(symbol.as_str());
                used = used + 1;
                proof {
                    if let Some(rest) = expand_spec(s.skip(iv + 1), cv.skip(uv + 1)) {
                        assert(out0 + (cv[uv] + rest) =~= out@ + rest);
                    }
                }
            } else {
                proof {
                    assert(cv.skip(uv).len() == 0);
                }
                return Err(CompingError::WildcardExhausted);
            }
        } else {
            let piece = notation.substring_char(i, i + 1);
            let ghost out0 = out@;
            out.append(piece);
            proof {
                assert(piece@ =~= seq![s[iv]]);
                if let Some(rest) = expand_spec(s.skip(iv + 1), cv.skip(uv)) {
                    assert(out0 + (seq![s[iv]] + rest) =~= out@ + rest);
                }
            }
        }
        i = i + 1;
    }
    proof {
        assert(s.skip(n as int).len() == 0);
        assert(out@ + Seq::<char>::empty() =~= out@);
    }
    Ok(out)
}

} // verus!
