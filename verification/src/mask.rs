//! Textual masking of control-flow labels and jumps. The source transform
//! library's parser rejects `goto name` and `::name::` tokens, so before each
//! parser invocation they are hidden behind a comment sentinel, and restored
//! afterwards. The sentinel survives comment stripping through an explicit
//! exception configured on the minifier.

use vstd::prelude::*;

verus! {

/// The comment sentinel placed in front of each masked token.
pub open spec fn sent_tok() -> Seq<char> {
    seq!['-', '-', 'a', 'u', 't', 'o', 'c', 'o', 'm', 'm', 'e', 'n', 't', 'e', 'd']
}

/// The jump token.
pub open spec fn goto_tok() -> Seq<char> {
    seq!['g', 'o', 't', 'o', ' ']
}

/// The label token.
pub open spec fn label_tok() -> Seq<char> {
    seq![':', ':']
}

/// A masked jump token.
pub open spec fn masked_goto_tok() -> Seq<char> {
    sent_tok() + goto_tok()
}

/// A masked label token.
pub open spec fn masked_label_tok() -> Seq<char> {
    sent_tok() + label_tok()
}

/// `p` is a prefix of `s`.
pub open spec fn starts_with(s: Seq<char>, p: Seq<char>) -> bool {
    s.len() >= p.len() && s.take(p.len() as int) == p
}

/// The sentinel occurs nowhere in `s`.
pub open spec fn no_sentinel(s: Seq<char>) -> bool {
    forall|i: int|
        0 <= i && i + sent_tok().len() <= s.len() ==> #[trigger] s.subrange(
            i,
            i + sent_tok().len() as int,
        ) != sent_tok()
}

/// The token literals used by the executable code, as the spec tokens.
pub(crate) proof fn lemma_tokens()
    ensures
        sent_tok().len() == 15,
        goto_tok().len() == 5,
        label_tok().len() == 2,
        masked_goto_tok().len() == 20,
        masked_label_tok().len() == 17,
        masked_goto_tok().take(15) =~= sent_tok(),
        masked_label_tok().take(15) =~= sent_tok(),
        "--autocommented"@ =~= sent_tok(),
        "goto "@ =~= goto_tok(),
        "::"@ =~= label_tok(),
        "--autocommentedgoto "@ =~= masked_goto_tok(),
        "--autocommented::"@ =~= masked_label_tok(),
{
    reveal_strlit("--autocommented");
    reveal_strlit("goto ");
    reveal_strlit("::");
    reveal_strlit("--autocommentedgoto ");
    reveal_strlit("--autocommented::");
}

/// Masks every jump and label token behind the sentinel.
pub open spec fn mask_spec(s: Seq<char>) -> Seq<char>
    decreases s.len(),
{
    if s.len() == 0 {
        s
    } else if starts_with(s, goto_tok()) {
        masked_goto_tok() + mask_spec(s.skip(goto_tok().len() as int))
    } else if starts_with(s, label_tok()) {
        masked_label_tok() + mask_spec(s.skip(label_tok().len() as int))
    } else {
        seq![s[0]] + mask_spec(s.skip(1))
    }
}

/// Restores every masked jump and label token.
pub open spec fn unmask_spec(s: Seq<char>) -> Seq<char>
    decreases s.len(),
{
    if s.len() == 0 {
        s
    } else if starts_with(s, masked_goto_tok()) {
        goto_tok() + unmask_spec(s.skip(masked_goto_tok().len() as int))
    } else if starts_with(s, masked_label_tok()) {
        label_tok() + unmask_spec(s.skip(masked_label_tok().len() as int))
    } else {
        seq![s[0]] + unmask_spec(s.skip(1))
    }
}

/// A suffix of a sentinel-free string is sentinel-free.
proof fn lemma_no_sentinel_skip(s: Seq<char>, k: int)
    requires
        no_sentinel(s),
        0 <= k <= s.len(),
    ensures
        no_sentinel(s.skip(k)),
{
    assert forall|i: int| 0 <= i && i + sent_tok().len() <= s.skip(k).len() implies #[trigger] s.skip(
        k,
    ).subrange(i, i + sent_tok().len() as int) != sent_tok() by {
        assert(s.skip(k).subrange(i, i + sent_tok().len() as int) =~= s.subrange(
            i + k,
            i + k + sent_tok().len() as int,
        ));
    }
}

/// If the masked text carries a proper suffix of a masked token at its head,
/// the unmasked text already carried that suffix: masking never manufactures
/// a masked token out of other characters.
proof fn lemma_mask_no_fake_token(u: Seq<char>, t: Seq<char>, j: int)
    requires
        t == masked_goto_tok() || t == masked_label_tok(),
        1 <= j <= t.len(),
        starts_with(mask_spec(u), t.skip(j)),
    ensures
        starts_with(u, t.skip(j)),
    decreases u.len(),
{
    lemma_tokens();
    reveal_strlit("--autocommentedgoto ");
    reveal_strlit("--autocommented::");
    reveal_strlit("goto ");
    reveal_strlit("::");
    if j == t.len() {
        assert(t.skip(j).len() == 0);
        assert(u.take(0) =~= Seq::<char>::empty());
        assert(u.take(t.skip(j).len() as int) =~= t.skip(j));
    } else if u.len() == 0 {
        assert(mask_spec(u).len() == 0);
        assert(false);
    } else if starts_with(u, goto_tok()) {
        let m = mask_spec(u);
        assert(m == masked_goto_tok() + mask_spec(u.skip(5)));
        assert(t.skip(j)[0] == m[0]);
        assert(m[0] == masked_goto_tok()[0]);
        assert(t[j] == '-');
        assert(j == 1);
        assert(t.skip(j).len() >= 2);
        assert(t.skip(j)[1] == m[1]);
        assert(m[1] == masked_goto_tok()[1]);
        assert(t[2] == '-');
        assert(false);
    } else if starts_with(u, label_tok()) {
        let m = mask_spec(u);
        assert(m == masked_label_tok() + mask_spec(u.skip(2)));
        assert(t.skip(j)[0] == m[0]);
        assert(m[0] == masked_label_tok()[0]);
        assert(t[j] == '-');
        assert(j == 1);
        assert(t.skip(j).len() >= 2);
        assert(t.skip(j)[1] == m[1]);
        assert(m[1] == masked_label_tok()[1]);
        assert(t[2] == '-');
        assert(false);
    } else {
        let m = mask_spec(u);
        assert(m == seq![u[0]] + mask_spec(u.skip(1)));
        assert(t.skip(j)[0] == m[0]);
        assert(u[0] == t[j]);
        assert(starts_with(mask_spec(u.skip(1)), t.skip(j + 1))) by {
            assert(mask_spec(u.skip(1)).len() >= t.skip(j + 1).len());
            assert forall|k: int| 0 <= k < t.skip(j + 1).len() implies #[trigger] mask_spec(
                u.skip(1),
            ).take(t.skip(j + 1).len() as int)[k] == t.skip(j + 1)[k] by {
                assert(mask_spec(u.skip(1))[k] == m[k + 1]);
                assert(m[k + 1] == t.skip(j)[k + 1]);
                assert(t.skip(j)[k + 1] == t[j + 1 + k]);
            }
            assert(mask_spec(u.skip(1)).take(t.skip(j + 1).len() as int) =~= t.skip(j + 1));
        }
        lemma_mask_no_fake_token(u.skip(1), t, j + 1);
        assert(starts_with(u, t.skip(j))) by {
            assert forall|k: int| 0 <= k < t.skip(j).len() implies #[trigger] u.take(
                t.skip(j).len() as int,
            )[k] == t.skip(j)[k] by {
                if k == 0 {
                } else {
                    assert(u[k] == u.skip(1)[k - 1]);
                    assert(u.skip(1)[k - 1] == t.skip(j + 1)[k - 1]) by {
                        assert(u.skip(1).take(t.skip(j + 1).len() as int)[k - 1] == t.skip(
                            j + 1,
                        )[k - 1]);
                    }
                }
            }
            assert(u.take(t.skip(j).len() as int) =~= t.skip(j));
        }
    }
}

/// Unmasking inverts masking on any sentinel-free source: the round trip
/// gives the source back unchanged.
pub proof fn lemma_unmask_mask(s: Seq<char>)
    requires
        no_sentinel(s),
    ensures
        unmask_spec(mask_spec(s)) == s,
    decreases s.len(),
{
    lemma_tokens();
    if s.len() == 0 {
    } else if starts_with(s, goto_tok()) {
        let rest = s.skip(5);
        lemma_no_sentinel_skip(s, 5);
        lemma_unmask_mask(rest);
        let m = mask_spec(s);
        assert(m == masked_goto_tok() + mask_spec(rest));
        assert(starts_with(m, masked_goto_tok())) by {
            assert(m.take(20) =~= masked_goto_tok());
        }
        assert(m.skip(20) =~= mask_spec(rest));
        assert(unmask_spec(m) == goto_tok() + unmask_spec(mask_spec(rest)));
        assert(goto_tok() + rest =~= s);
    } else if starts_with(s, label_tok()) {
        let rest = s.skip(2);
        lemma_no_sentinel_skip(s, 2);
        lemma_unmask_mask(rest);
        let m = mask_spec(s);
        assert(m == masked_label_tok() + mask_spec(rest));
        assert(!starts_with(m, masked_goto_tok())) by {
            if starts_with(m, masked_goto_tok()) {
                assert(m[15] == masked_goto_tok()[15]) by {
                    assert(m.take(20)[15] == masked_goto_tok()[15]);
                }
                assert(m[15] == masked_label_tok()[15]);
                reveal_strlit("--autocommentedgoto ");
                reveal_strlit("--autocommented::");
                assert(false);
            }
        }
        assert(starts_with(m, masked_label_tok())) by {
            assert(m.take(17) =~= masked_label_tok());
        }
        assert(m.skip(17) =~= mask_spec(rest));
        assert(unmask_spec(m) == label_tok() + unmask_spec(mask_spec(rest)));
        assert(label_tok() + rest =~= s);
    } else {
        let rest = s.skip(1);
        lemma_no_sentinel_skip(s, 1);
        lemma_unmask_mask(rest);
        let m = mask_spec(s);
        assert(m == seq![s[0]] + mask_spec(rest));
        assert(!starts_with(m, masked_goto_tok())) by {
            if starts_with(m, masked_goto_tok()) {
                assert(s[0] == masked_goto_tok()[0]) by {
                    assert(m.take(20)[0] == masked_goto_tok()[0]);
                }
                assert(starts_with(mask_spec(rest), masked_goto_tok().skip(1))) by {
                    assert forall|k: int| 0 <= k < 19 implies #[trigger] mask_spec(rest).take(
                        19,
                    )[k] == masked_goto_tok().skip(1)[k] by {
                        assert(mask_spec(rest)[k] == m[k + 1]);
                        assert(m[k + 1] == masked_goto_tok()[k + 1]) by {
                            assert(m.take(20)[k + 1] == masked_goto_tok()[k + 1]);
                        }
                    }
                    assert(mask_spec(rest).take(19) =~= masked_goto_tok().skip(1));
                }
                lemma_mask_no_fake_token(rest, masked_goto_tok(), 1);
                assert(s.subrange(0, 15) =~= sent_tok()) by {
                    reveal_strlit("--autocommentedgoto ");
                    reveal_strlit("--autocommented");
                    assert forall|k: int| 0 <= k < 15 implies #[trigger] s.subrange(0, 15)[k]
                        == masked_goto_tok()[k] by {
                        if k == 0 {
                        } else {
                            assert(s[k] == rest[k - 1]);
                            assert(rest[k - 1] == masked_goto_tok().skip(1)[k - 1]) by {
                                assert(rest.take(19)[k - 1] == masked_goto_tok().skip(1)[k - 1]);
                            }
                        }
                    }
                    assert(masked_goto_tok().take(15) =~= sent_tok());
                    assert(s.subrange(0, 15) =~= masked_goto_tok().take(15));
                }
                assert(0 + sent_tok().len() <= s.len());
                assert(s.subrange(0, 0 + sent_tok().len() as int) != sent_tok());
                assert(s.subrange(0, 0 + sent_tok().len() as int) =~= s.subrange(0, 15));
                assert(false);
            }
        }
        assert(!starts_with(m, masked_label_tok())) by {
            if starts_with(m, masked_label_tok()) {
                assert(s[0] == masked_label_tok()[0]) by {
                    assert(m.take(17)[0] == masked_label_tok()[0]);
                }
                assert(starts_with(mask_spec(rest), masked_label_tok().skip(1))) by {
                    assert forall|k: int| 0 <= k < 16 implies #[trigger] mask_spec(rest).take(
                        16,
                    )[k] == masked_label_tok().skip(1)[k] by {
                        assert(mask_spec(rest)[k] == m[k + 1]);
                        assert(m[k + 1] == masked_label_tok()[k + 1]) by {
                            assert(m.take(17)[k + 1] == masked_label_tok()[k + 1]);
                        }
                    }
                    assert(mask_spec(rest).take(16) =~= masked_label_tok().skip(1));
                }
                lemma_mask_no_fake_token(rest, masked_label_tok(), 1);
                assert(s.subrange(0, 15) =~= sent_tok()) by {
                    reveal_strlit("--autocommented::");
                    reveal_strlit("--autocommented");
                    assert forall|k: int| 0 <= k < 15 implies #[trigger] s.subrange(0, 15)[k]
                        == masked_label_tok()[k] by {
                        if k == 0 {
                        } else {
                            assert(s[k] == rest[k - 1]);
                            assert(rest[k - 1] == masked_label_tok().skip(1)[k - 1]) by {
                                assert(rest.take(16)[k - 1] == masked_label_tok().skip(1)[k - 1]);
                            }
                        }
                    }
                    assert(masked_label_tok().take(15) =~= sent_tok());
                    assert(s.subrange(0, 15) =~= masked_label_tok().take(15));
                }
                assert(0 + sent_tok().len() <= s.len());
                assert(s.subrange(0, 0 + sent_tok().len() as int) != sent_tok());
                assert(s.subrange(0, 0 + sent_tok().len() as int) =~= s.subrange(0, 15));
                assert(false);
            }
        }
        assert(m.skip(1) =~= mask_spec(rest));
        assert(m[0] == s[0]);
        assert(unmask_spec(m) == seq![s[0]] + unmask_spec(mask_spec(rest)));
        assert(seq![s[0]] + rest =~= s);
    }
}

/// True when the pattern occurs at character position `i` of `s`.
pub fn matches_at(s: &str, i: usize, pat: &str) -> (r: bool)
    requires
        i <= s@.len(),
    ensures
        r == starts_with(s@.skip(i as int), pat@),
{
    let n = s.unicode_len();
    let pn = pat.unicode_len();
    if n - i < pn {
        assert(s@.skip(i as int).len() < pat@.len());
        return false;
    }
    let mut j: usize = 0;
    while j < pn
        invariant
            j <= pn,
            i <= n,
            n == s@.len(),
            pn == pat@.len(),
            n - i >= pn,
            forall|k: int| 0 <= k < j ==> s@.skip(i as int)[k] == pat@[k],
        decreases pn - j,
    {
        if s.get_char(i + j) != pat.get_char(j) {
            assert(s@.skip(i as int)[j as int] != pat@[j as int]);
            assert(!starts_with(s@.skip(i as int), pat@)) by {
                if starts_with(s@.skip(i as int), pat@) {
                    assert(s@.skip(i as int).take(pat@.len() as int)[j as int] == pat@[j as int]);
                }
            }
            return false;
        }
        j = j + 1;
    }
    assert(s@.skip(i as int).take(pat@.len() as int) =~= pat@);
    true
}

/// Hides every `goto ` and `::` token behind the comment sentinel, so the
/// transform library's parser never sees them.
pub fn comment_gotos(s: &str) -> (r: String)
    ensures
        r@ == mask_spec(s@),
{
    let n = s.unicode_len();
    let mut out = String::new();
    let mut i: usize = 0;
    proof {
        assert(s@.skip(0) =~= s@);
        assert(out@ + mask_spec(s@) =~= mask_spec(s@));
    }
    while i < n
        invariant
            i <= n,
            n == s@.len(),
            mask_spec(s@) == out@ + mask_spec(s@.skip(i as int)),
        decreases n - i,
    {
        proof {
            lemma_tokens();
        }
        let ghost rest = s@.skip(i as int);
        let ghost out0 = out@;
        if matches_at(s, i, "goto ") {
            proof {
                lemma_tokens();
            }
            out.append("--autocommentedgoto ");
            proof {
                assert(rest.skip(5) =~= s@.skip(i as int + 5));
                assert(out0 + (masked_goto_tok() + mask_spec(s@.skip(i as int + 5))) =~= out@
                    + mask_spec(s@.skip(i as int + 5)));
            }
            i = i + 5;
        } else if matches_at(s, i, "::") {
            proof {
                lemma_tokens();
            }
            out.append("--autocommented::");
            proof {
                assert(rest.skip(2) =~= s@.skip(i as int + 2));
                assert(out0 + (masked_label_tok() + mask_spec(s@.skip(i as int + 2))) =~= out@
                    + mask_spec(s@.skip(i as int + 2)));
            }
            i = i + 2;
        } else {
            let c = s.substring_char(i, i + 1);
            out.append(c);
            proof {
                assert(c@ =~= seq![rest[0]]);
                assert(rest.skip(1) =~= s@.skip(i as int + 1));
                assert(out0 + (seq![rest[0]] + mask_spec(s@.skip(i as int + 1))) =~= out@
                    + mask_spec(s@.skip(i as int + 1)));
            }
            i = i + 1;
        }
    }
    proof {
        assert(s@.skip(n as int).len() == 0);
        assert(out@ + Seq::<char>::empty() =~= out@);
    }
    out
}

/// Restores the `goto ` and `::` tokens hidden by `comment_gotos`.
pub fn uncomment_gotos(s: &str) -> (r: String)
    ensures
        r@ == unmask_spec(s@),
{
    let n = s.unicode_len();
    let mut out = String::new();
    let mut i: usize = 0;
    proof {
        assert(s@.skip(0) =~= s@);
        assert(out@ + unmask_spec(s@) =~= unmask_spec(s@));
    }
    while i < n
        invariant
            i <= n,
            n == s@.len(),
            unmask_spec(s@) == out@ + unmask_spec(s@.skip(i as int)),
        decreases n - i,
    {
        proof {
            lemma_tokens();
        }
        let ghost rest = s@.skip(i as int);
        let ghost out0 = out@;
        if matches_at(s, i, "--autocommentedgoto ") {
            proof {
                lemma_tokens();
            }
            out.append("goto ");
            proof {
                assert(rest.skip(20) =~= s@.skip(i as int + 20));
                assert(out0 + (goto_tok() + unmask_spec(s@.skip(i as int + 20))) =~= out@
                    + unmask_spec(s@.skip(i as int + 20)));
            }
            i = i + 20;
        } else if matches_at(s, i, "--autocommented::") {
            proof {
                lemma_tokens();
            }
            out.append("::");
            proof {
                assert(rest.skip(17) =~= s@.skip(i as int + 17));
                assert(out0 + (label_tok() + unmask_spec(s@.skip(i as int + 17))) =~= out@
                    + unmask_spec(s@.skip(i as int + 17)));
            }
            i = i + 17;
        } else {
            let c = s.substring_char(i, i + 1);
            out.append(c);
            proof {
                assert(c@ =~= seq![rest[0]]);
                assert(rest.skip(1) =~= s@.skip(i as int + 1));
                assert(out0 + (seq![rest[0]] + unmask_spec(s@.skip(i as int + 1))) =~= out@
                    + unmask_spec(s@.skip(i as int + 1)));
            }
            i = i + 1;
        }
    }
    proof {
        assert(s@.skip(n as int).len() == 0);
        assert(out@ + Seq::<char>::empty() =~= out@);
    }
    out
}

/// Replaces every occurrence of a pattern, scanning left to right.
pub open spec fn replace_all_spec(s: Seq<char>, pat: Seq<char>, rep: Seq<char>) -> Seq<char>
    decreases s.len(),
{
    if pat.len() < 1 || s.len() == 0 {
        s
    } else if starts_with(s, pat) {
        rep + replace_all_spec(s.skip(pat.len() as int), pat, rep)
    } else {
        seq![s[0]] + replace_all_spec(s.skip(1), pat, rep)
    }
}

/// Replaces every occurrence of `pat` in `s` with `rep`, left to right,
/// never rescanning replaced text.
pub fn replace_all(s: &str, pat: &str, rep: &str) -> (r: String)
    requires
        pat@.len() >= 1,
    ensures
        r@ == replace_all_spec(s@, pat@, rep@),
{
    let n = s.unicode_len();
    let pn = pat.unicode_len();
    let mut out = String::new();
    let mut i: usize = 0;
    proof {
        assert(s@.skip(0) =~= s@);
        assert(out@ + replace_all_spec(s@, pat@, rep@) =~= replace_all_spec(s@, pat@, rep@));
    }
    while i < n
        invariant
            i <= n,
            n == s@.len(),
            pn == pat@.len(),
            pn >= 1,
            replace_all_spec(s@, pat@, rep@) == out@ + replace_all_spec(
                s@.skip(i as int),
                pat@,
                rep@,
            ),
        decreases n - i,
    {
        let ghost rest = s@.skip(i as int);
        let ghost out0 = out@;
        if matches_at(s, i, pat) {
            out.append(rep);
            proof {
                assert(rest.skip(pn as int) =~= s@.skip(i as int + pn as int));
                assert(out0 + (rep@ + replace_all_spec(
                    s@.skip(i as int + pn as int),
                    pat@,
                    rep@,
                )) =~= out@ + replace_all_spec(s@.skip(i as int + pn as int), pat@, rep@));
            }
            i = i + pn;
        } else {
            let c = s.substring_char(i, i + 1);
            out.append(c);
            proof {
                assert(c@ =~= seq![rest[0]]);
                assert(rest.skip(1) =~= s@.skip(i as int + 1));
                assert(out0 + (seq![rest[0]] + replace_all_spec(
                    s@.skip(i as int + 1),
                    pat@,
                    rep@,
                )) =~= out@ + replace_all_spec(s@.skip(i as int + 1), pat@, rep@));
            }
            i = i + 1;
        }
    }
    proof {
        assert(s@.skip(n as int).len() == 0);
        assert(out@ + Seq::<char>::empty() =~= out@);
    }
    out
}

} // verus!
