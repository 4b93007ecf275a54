//! Glob matching over raw path bytes, the fixed addon whitelist, and
//! per-addon ignore lists.
//!
//! The matcher implements the classic single-backtrack wildcard scan used
//! by the reference tool: `*` matches any run of bytes (greedy, with
//! backtracking to the most recent star), `?` matches exactly one byte,
//! every other byte matches itself. Matching is byte-wise and
//! case-sensitive; there are no character classes and no escaping.

use vstd::prelude::*;
use vstd::string::StrSliceExecFns;
use vstd::string::StringSliceAdditionalSpecFns;
use vstd::utf8::encode_utf8;

verus! {

/// The byte `*`: matches zero or more bytes.
pub const WILD_BYTE: u8 = 42;

/// The byte `?`: matches exactly one byte.
pub const QUESTION_BYTE: u8 = 63;

/// Byte-wise glob semantics, written as a recurrence: an empty pattern
/// matches only the empty string; a leading `*` either disappears or
/// absorbs one byte; any other leading pattern byte must match the first
/// string byte (literally, or as `?`).
pub open spec fn glob_matches(wild: Seq<u8>, s: Seq<u8>) -> bool
    decreases wild.len() + s.len(),
{
    if wild.len() == 0 {
        s.len() == 0
    } else if wild[0] == WILD_BYTE {
        glob_matches(wild.drop_first(), s) || (s.len() > 0 && glob_matches(
            wild,
            s.drop_first(),
        ))
    } else if s.len() == 0 {
        false
    } else {
        (wild[0] == s[0] || wild[0] == QUESTION_BYTE) && glob_matches(
            wild.drop_first(),
            s.drop_first(),
        )
    }
}

/// A pattern made of stars only.
pub open spec fn all_wild(w: Seq<u8>) -> bool {
    forall|i: int| 0 <= i < w.len() ==> w[i] == WILD_BYTE
}

/// A pattern fragment containing no star.
pub open spec fn star_free(w: Seq<u8>) -> bool {
    forall|i: int| 0 <= i < w.len() ==> w[i] != WILD_BYTE
}

/// A star-free fragment matched position by position against part of a
/// string: each pattern byte equals the string byte or is `?`.
pub open spec fn literal_match(p: Seq<u8>, t: Seq<u8>) -> bool {
    p.len() <= t.len() && forall|j: int|
        0 <= j < p.len() ==> (p[j] == t[j] || p[j] == QUESTION_BYTE)
}

/// A pattern of one or more stars matches every string.
pub proof fn lemma_all_wild_matches(w: Seq<u8>, s: Seq<u8>)
    requires
        all_wild(w),
        w.len() > 0,
    ensures
        glob_matches(w, s),
    decreases w.len() + s.len(),
{
    assert forall|i: int| 0 <= i < w.drop_first().len() implies w.drop_first()[i]
        == WILD_BYTE by {
        assert(w[i + 1] == WILD_BYTE);
    }
    assert(w[0] == WILD_BYTE);
    if s.len() == 0 {
        if w.len() > 1 {
            lemma_all_wild_matches(w.drop_first(), s);
        } else {
            assert(w.drop_first().len() == 0);
            assert(glob_matches(w.drop_first(), s));
        }
    } else {
        lemma_all_wild_matches(w, s.drop_first());
    }
}

/// Against the empty string, a pattern matches exactly when it is all stars.
pub proof fn lemma_empty_str(w: Seq<u8>)
    ensures
        glob_matches(w, Seq::<u8>::empty()) == all_wild(w),
    decreases w.len(),
{
    if w.len() > 0 {
        lemma_empty_str(w.drop_first());
        if w[0] == WILD_BYTE {
            assert(all_wild(w) == all_wild(w.drop_first())) by {
                if all_wild(w.drop_first()) {
                    assert forall|i: int| 0 <= i < w.len() implies w[i] == WILD_BYTE by {
                        if i > 0 {
                            assert(w.drop_first()[i - 1] == WILD_BYTE);
                        }
                    }
                } else {
                    let j = choose|j: int|
                        0 <= j < w.drop_first().len() && w.drop_first()[j] != WILD_BYTE;
                    assert(w[j + 1] != WILD_BYTE);
                }
            }
        }
    }
}

/// A star-headed pattern that matches a suffix of `s` also matches `s`
/// itself: the star absorbs the extra bytes.
pub proof fn lemma_star_absorb(w: Seq<u8>, s: Seq<u8>, k: int)
    requires
        w.len() > 0,
        w[0] == WILD_BYTE,
        0 <= k <= s.len(),
        glob_matches(w, s.skip(k)),
    ensures
        glob_matches(w, s),
    decreases k,
{
    if k > 0 {
        assert(s.drop_first().skip(k - 1) =~= s.skip(k));
        lemma_star_absorb(w, s.drop_first(), k - 1);
    } else {
        assert(s.skip(0) =~= s);
    }
}

/// What a leading star can do, in `exists` form: it consumes some prefix
/// and the rest of the pattern matches what remains.
pub proof fn lemma_star_elim(w: Seq<u8>, s: Seq<u8>)
    requires
        w.len() > 0,
        w[0] == WILD_BYTE,
        glob_matches(w, s),
    ensures
        exists|k: int| 0 <= k <= s.len() && glob_matches(w.drop_first(), s.skip(k)),
    decreases s.len(),
{
    if glob_matches(w.drop_first(), s) {
        assert(s.skip(0) =~= s);
        assert(glob_matches(w.drop_first(), s.skip(0)));
    } else {
        lemma_star_elim(w, s.drop_first());
        let k0 = choose|k0: int|
            0 <= k0 <= s.drop_first().len() && glob_matches(
                w.drop_first(),
                s.drop_first().skip(k0),
            );
        assert(s.drop_first().skip(k0) =~= s.skip(k0 + 1));
        assert(glob_matches(w.drop_first(), s.skip(k0 + 1)));
    }
}

/// A star-free pattern prefix is forced: the whole pattern matches iff the
/// prefix matches literally and the remainder matches what is left.
pub proof fn lemma_starfree_prefix(p: Seq<u8>, rest: Seq<u8>, t: Seq<u8>)
    requires
        star_free(p),
    ensures
        glob_matches(p + rest, t) == (literal_match(p, t) && glob_matches(
            rest,
            t.skip(p.len() as int),
        )),
    decreases p.len(),
{
    if p.len() == 0 {
        assert(p + rest =~= rest);
        assert(t.skip(0) =~= t);
    } else {
        let w = p + rest;
        assert(w[0] == p[0]);
        assert(w[0] != WILD_BYTE);
        if t.len() == 0 {
            assert(!glob_matches(w, t));
            assert(!literal_match(p, t));
        } else if p[0] == t[0] || p[0] == QUESTION_BYTE {
            assert(w.drop_first() =~= p.drop_first() + rest);
            lemma_starfree_prefix(p.drop_first(), rest, t.drop_first());
            if p.len() <= t.len() {
                assert(t.drop_first().skip(p.len() - 1) =~= t.skip(p.len() as int));
            }
            assert(literal_match(p, t) == literal_match(p.drop_first(), t.drop_first())) by {
                if literal_match(p.drop_first(), t.drop_first()) {
                    assert forall|j: int| 0 <= j < p.len() implies (p[j] == t[j] || p[j]
                        == QUESTION_BYTE) by {
                        if j > 0 {
                            assert(p.drop_first()[j - 1] == t.drop_first()[j - 1] || p.drop_first()[
                                j - 1] == QUESTION_BYTE);
                        }
                    }
                } else {
                    if literal_match(p, t) {
                        assert forall|j: int|
                            0 <= j < p.drop_first().len() implies (p.drop_first()[j]
                            == t.drop_first()[j] || p.drop_first()[j] == QUESTION_BYTE) by {
                            assert(p[j + 1] == t[j + 1] || p[j + 1] == QUESTION_BYTE);
                        }
                    }
                }
            }
        } else {
            assert(!glob_matches(w, t));
            assert(!literal_match(p, t)) by {
                assert(p[0] != t[0] && p[0] != QUESTION_BYTE);
            }
        }
    }
}

/// One unfolding of [`glob_matches`] for a star-headed pattern.
proof fn lemma_star_unfold(w: Seq<u8>, s: Seq<u8>)
    requires
        w.len() > 0,
        w[0] == WILD_BYTE,
    ensures
        glob_matches(w, s) == (glob_matches(w.drop_first(), s) || (s.len() > 0 && glob_matches(
            w,
            s.drop_first(),
        ))),
{
}

/// One unfolding of [`glob_matches`] for a pattern headed by a literal or `?`.
proof fn lemma_lit_unfold(w: Seq<u8>, s: Seq<u8>)
    requires
        w.len() > 0,
        w[0] != WILD_BYTE,
    ensures
        glob_matches(w, s) == (s.len() > 0 && (w[0] == s[0] || w[0] == QUESTION_BYTE)
            && glob_matches(w.drop_first(), s.drop_first())),
{
    if s.len() == 0 {
        assert(!glob_matches(w, s));
    }
}

/// Invariant facts carried by the backtracking scan while a star is
/// recorded at `star_w - 1` with restart position `cp`: the pattern
/// between the star and the cursor is star-free and has matched the
/// string literally since position `cp - 1`.
spec fn anchor_ok(w: Seq<u8>, t: Seq<u8>, wi: int, si: int, star_w: int, cp: int) -> bool {
    &&& 1 <= star_w <= wi <= w.len()
    &&& w[star_w - 1] == WILD_BYTE
    &&& 1 <= cp && cp <= si + 1 && si <= t.len()
    &&& wi - star_w == si - (cp - 1)
    &&& star_free(w.subrange(star_w, wi))
    &&& literal_match(w.subrange(star_w, wi), t.skip(cp - 1))
}

/// The loop's matching claim: the whole pattern matches exactly when
/// the current cursor state still can, or the recorded star can retry.
spec fn scan_claim(
    w: Seq<u8>,
    t: Seq<u8>,
    wi: int,
    si: int,
    has_star: bool,
    star_w: int,
    cp: int,
) -> bool {
    glob_matches(w, t) == (glob_matches(w.skip(wi), t.skip(si)) || (has_star && glob_matches(
        w.skip(star_w - 1),
        t.skip(cp - 1),
    )))
}

/// Taking the star branch: anchoring at the star just reached preserves
/// the matching claim, because anything the old star could still do is
/// absorbed by the new one.
proof fn lemma_step_star(
    w: Seq<u8>,
    t: Seq<u8>,
    wi: int,
    si: int,
    has_star: bool,
    star_w: int,
    cp: int,
)
    requires
        0 <= wi < w.len(),
        0 <= si < t.len(),
        w[wi] == WILD_BYTE,
        has_star ==> anchor_ok(w, t, wi, si, star_w, cp),
        scan_claim(w, t, wi, si, has_star, star_w, cp),
    ensures
        glob_matches(w, t) == glob_matches(w.skip(wi), t.skip(si)),
        wi + 1 == w.len() ==> glob_matches(w, t),
        scan_claim(w, t, wi + 1, si, true, wi + 1, si + 1),
{
    let wa = w.skip(wi);
    let ta = t.skip(si);
    assert(wa[0] == w[wi]);
    assert(wa.drop_first() =~= w.skip(wi + 1));
    lemma_star_unfold(wa, ta);
    if has_star && glob_matches(w.skip(star_w - 1), t.skip(cp - 1)) {
        let anchor = w.skip(star_w - 1);
        let seg = w.subrange(star_w, wi);
        let len = wi - star_w;
        assert(anchor[0] == w[star_w - 1]);
        assert(anchor.drop_first() =~= seg + w.skip(wi));
        lemma_star_elim(anchor, t.skip(cp - 1));
        let k = choose|k: int|
            0 <= k <= t.skip(cp - 1).len() && #[trigger] glob_matches(
                anchor.drop_first(),
                t.skip(cp - 1).skip(k),
            );
        assert(t.skip(cp - 1).skip(k) =~= t.skip(cp - 1 + k));
        lemma_starfree_prefix(seg, w.skip(wi), t.skip(cp - 1 + k));
        assert(literal_match(seg, t.skip(cp - 1 + k)));
        assert(t.skip(cp - 1 + k).skip(len) =~= t.skip(cp - 1 + k + len));
        assert(glob_matches(w.skip(wi), t.skip(cp - 1 + k + len)));
        assert(cp - 1 + len == si);
        assert(t.skip(si).skip(k) =~= t.skip(si + k));
        lemma_star_absorb(wa, ta, k);
    }
    if wi + 1 == w.len() {
        assert(all_wild(wa)) by {
            assert(wa.len() == 1);
            assert(wa[0] == WILD_BYTE);
        }
        lemma_all_wild_matches(wa, ta);
    }
}

/// Taking the backtrack branch: on a mismatch, retrying the recorded star
/// one byte further preserves the matching claim, because the literal
/// segment attempted since the last restart was forced.
proof fn lemma_step_backtrack(w: Seq<u8>, t: Seq<u8>, wi: int, si: int, star_w: int, cp: int)
    requires
        0 <= wi <= w.len(),
        0 <= si < t.len(),
        anchor_ok(w, t, wi, si, star_w, cp),
        scan_claim(w, t, wi, si, true, star_w, cp),
        wi < w.len() ==> w[wi] != WILD_BYTE,
        wi < w.len() ==> (w[wi] != t[si] && w[wi] != QUESTION_BYTE),
    ensures
        scan_claim(w, t, star_w, cp, true, star_w, cp + 1),
{
    let cur = w.skip(wi);
    assert(!glob_matches(cur, t.skip(si))) by {
        if wi < w.len() {
            assert(cur[0] == w[wi]);
            assert(t.skip(si)[0] == t[si]);
            lemma_lit_unfold(cur, t.skip(si));
        } else {
            assert(cur.len() == 0);
            assert(t.skip(si).len() > 0);
        }
    }
    let anchor = w.skip(star_w - 1);
    let seg = w.subrange(star_w, wi);
    let rest = w.skip(star_w);
    let retry = t.skip(cp - 1);
    let len = wi - star_w;
    assert(anchor[0] == w[star_w - 1]);
    assert(anchor.drop_first() =~= rest);
    assert(retry.len() > 0);
    assert(retry.drop_first() =~= t.skip(cp));
    lemma_star_unfold(anchor, retry);
    assert(rest =~= seg + w.skip(wi));
    lemma_starfree_prefix(seg, w.skip(wi), retry);
    assert(retry.skip(len) =~= t.skip(si));
    assert(!glob_matches(rest, retry));
    // the star consuming zero further bytes is subsumed by the anchor
    lemma_star_unfold(anchor, t.skip(cp));
}

/// Leaving the scan with the string exhausted: the pattern matches
/// exactly when only stars remain at the cursor.
proof fn lemma_exit_exhausted(
    w: Seq<u8>,
    t: Seq<u8>,
    wi: int,
    si: int,
    has_star: bool,
    star_w: int,
    cp: int,
)
    requires
        0 <= wi <= w.len(),
        si == t.len(),
        has_star ==> anchor_ok(w, t, wi, si, star_w, cp),
        scan_claim(w, t, wi, si, has_star, star_w, cp),
    ensures
        glob_matches(w, t) == all_wild(w.skip(wi)),
{
    assert(t.skip(si) =~= Seq::<u8>::empty());
    lemma_empty_str(w.skip(wi));
    if has_star && glob_matches(w.skip(star_w - 1), t.skip(cp - 1)) {
        let anchor = w.skip(star_w - 1);
        let seg = w.subrange(star_w, wi);
        let retry = t.skip(cp - 1);
        let len = wi - star_w;
        assert(anchor[0] == w[star_w - 1]);
        assert(anchor.drop_first() =~= seg + w.skip(wi));
        lemma_star_elim(anchor, retry);
        let k = choose|k: int|
            0 <= k <= retry.len() && #[trigger] glob_matches(anchor.drop_first(), retry.skip(k));
        lemma_starfree_prefix(seg, w.skip(wi), retry.skip(k));
        assert(literal_match(seg, retry.skip(k)));
        assert(retry.len() == len);
        assert(k == 0);
        assert(retry.skip(k).skip(len) =~= t.skip(cp - 1 + k + len));
        assert(t.skip(cp - 1 + k + len) =~= Seq::<u8>::empty());
        lemma_empty_str(w.skip(wi));
    }
    if all_wild(w.skip(wi)) {
        assert(glob_matches(w.skip(wi), t.skip(si)));
    }
}

/// Scans for the first byte at or after `from` that is not a star, and
/// reports whether only stars remain.
fn only_stars_remain(wild: &[u8], from: usize) -> (r: bool)
    requires
        from <= wild@.len(),
    ensures
        r == all_wild(wild@.skip(from as int)),
{
    let wl: usize = wild.len();
    let mut k: usize = from;
    while k < wl && wild[k] == WILD_BYTE
        invariant
            from <= k <= wl,
            wl == wild@.len(),
            forall|j: int| from <= j < k ==> wild@[j] == WILD_BYTE,
        decreases wl - k,
    {
        k += 1;
    }
    if k == wl {
        proof {
            assert forall|j: int| 0 <= j < wild@.skip(from as int).len() implies wild@.skip(
                from as int,
            )[j] == WILD_BYTE by {
            assert(wild@[from + j] == WILD_BYTE);
        }
        }
        true
    } else {
        proof {
            assert(wild@.skip(from as int)[k - from] != WILD_BYTE);
        }
        false
    }
}

/// The backtracking wildcard scan of the reference tool: match left to
/// right; on a star record a backtrack pair (the pattern position after
/// the star, and the string position after the point where it began to
/// consume); on a mismatch restore the pair and let the star consume one
/// more byte; once the string is exhausted, succeed exactly when only
/// stars remain in the pattern.
fn globber(wild: &[u8], s: &[u8]) -> (r: bool)
    ensures
        r == glob_matches(wild@, s@),
{
    let wl: usize = wild.len();
    let sl: usize = s.len();
    let mut wi: usize = 0;
    let mut si: usize = 0;

    proof {
        assert(wild@.skip(0) =~= wild@);
        assert(s@.skip(0) =~= s@);
    }

    // Literal scan up to the first star.
    while wi < wl && si < sl && wild[wi] != WILD_BYTE
        invariant
            wi <= wl,
            si <= sl,
            wl == wild@.len(),
            sl == s@.len(),
            glob_matches(wild@, s@) == glob_matches(
                wild@.skip(wi as int),
                s@.skip(si as int),
            ),
        decreases wl - wi,
    {
        proof {
            assert(wild@.skip(wi as int)[0] == wild@[wi as int]);
            assert(s@.skip(si as int)[0] == s@[si as int]);
        }
        if wild[wi] != s[si] && wild[wi] != QUESTION_BYTE {
            proof {
                assert(!glob_matches(wild@.skip(wi as int), s@.skip(si as int)));
            }
            return false;
        }
        proof {
            assert(wild@.skip(wi as int).drop_first() =~= wild@.skip(wi + 1));
            assert(s@.skip(si as int).drop_first() =~= s@.skip(si + 1));
        }
        wi += 1;
        si += 1;
    }

    if si == sl {
        // String exhausted: the pattern matches iff only stars remain.
        proof {
            assert(s@.skip(si as int) =~= Seq::<u8>::empty());
            lemma_empty_str(wild@.skip(wi as int));
        }
        return only_stars_remain(wild, wi);
    }
    if wi == wl {
        // Pattern exhausted before the string and no star was seen.
        proof {
            assert(wild@.skip(wi as int).len() == 0);
            assert(s@.skip(si as int).len() > 0);
        }
        return false;
    }

    // A star was reached with string bytes left to match.
    let mut star_w: usize = 0;  // pattern position just after the recorded star
    let mut restart: usize = 0;  // string position where the star began consuming
    let mut has_star: bool = false;
    while si < sl
        invariant
            wi <= wl,
            si <= sl,
            wl == wild@.len(),
            sl == s@.len(),
            !has_star ==> restart == 0,
            has_star ==> restart <= sl,
            has_star ==> anchor_ok(
                wild@,
                s@,
                wi as int,
                si as int,
                star_w as int,
                restart + 1,
            ),
            scan_claim(wild@, s@, wi as int, si as int, has_star, star_w as int, restart + 1),
        decreases sl - restart, wl - wi,
    {
        let ghost w = wild@;
        let ghost t = s@;
        if wi < wl && wild[wi] == WILD_BYTE {
            proof {
                lemma_step_star(
                    w,
                    t,
                    wi as int,
                    si as int,
                    has_star,
                    star_w as int,
                    restart + 1,
                );
            }
            wi += 1;
            if wi == wl {
                return true;
            }
            star_w = wi;
            restart = si;
            has_star = true;
            proof {
                assert(w.subrange(star_w as int, wi as int) =~= Seq::<u8>::empty());
            }
        } else if wi < wl && (wild[wi] == s[si] || wild[wi] == QUESTION_BYTE) {
            proof {
                assert(w.skip(wi as int)[0] == w[wi as int]);
                assert(t.skip(si as int)[0] == t[si as int]);
                assert(w.skip(wi as int).drop_first() =~= w.skip(wi + 1));
                assert(t.skip(si as int).drop_first() =~= t.skip(si + 1));
                lemma_lit_unfold(w.skip(wi as int), t.skip(si as int));
                if has_star {
                    let seg = w.subrange(star_w as int, wi + 1);
                    assert forall|j: int| 0 <= j < seg.len() implies seg[j] != WILD_BYTE && (
                    seg[j] == t.skip(restart as int)[j] || seg[j] == QUESTION_BYTE) by {
                        if j < wi - star_w {
                            let old_seg = w.subrange(star_w as int, wi as int);
                            assert(seg[j] == old_seg[j]);
                            assert(old_seg[j] != WILD_BYTE);
                            assert(old_seg[j] == t.skip(restart as int)[j] || old_seg[j]
                                == QUESTION_BYTE);
                        } else {
                            assert(seg[j] == w[wi as int]);
                            assert(t.skip(restart as int)[j] == t[si as int]);
                        }
                    }
                }
            }
            wi += 1;
            si += 1;
        } else if has_star {
            proof {
                lemma_step_backtrack(w, t, wi as int, si as int, star_w as int, restart + 1);
            }
            wi = star_w;
            restart += 1;
            si = restart;
            proof {
                assert(w.subrange(star_w as int, star_w as int) =~= Seq::<u8>::empty());
            }
        } else {
            proof {
                let cur = w.skip(wi as int);
                if wi < wl {
                    assert(cur[0] == w[wi as int]);
                    assert(t.skip(si as int)[0] == t[si as int]);
                    lemma_lit_unfold(cur, t.skip(si as int));
                } else {
                    assert(cur.len() == 0);
                    assert(t.skip(si as int).len() > 0);
                }
                assert(!glob_matches(cur, t.skip(si as int)));
            }
            return false;
        }
    }

    // String exhausted inside the star scan.
    proof {
        lemma_exit_exhausted(
            wild@,
            s@,
            wi as int,
            si as int,
            has_star,
            star_w as int,
            restart + 1,
        );
    }
    only_stars_remain(wild, wi)
}



/// The UTF-8 bytes of a string of characters. Kept closed so that pattern
/// and path byte-sequences stay atomic terms in contracts;
/// [`lemma_str_bytes`] states what the function is.
pub closed spec fn str_bytes(s: Seq<char>) -> Seq<u8> {
    encode_utf8(s)
}

/// `str_bytes` is the UTF-8 encoding of its characters.
pub proof fn lemma_str_bytes(s: Seq<char>)
    ensures
        str_bytes(s) == encode_utf8(s),
{
}

/// Turns a pattern literal into its bytes.
fn pattern(s: &str) -> (v: Vec<u8>)
    ensures
        v@ == str_bytes(s@),
{
    proof {
        lemma_str_bytes(s@);
    }
    s.as_bytes_vec()
}

/// Whether any pattern of a list matches the byte string.
pub open spec fn spec_matches_any(pats: Seq<Seq<u8>>, b: Seq<u8>) -> bool {
    exists|i: int| 0 <= i < pats.len() && glob_matches(pats[i], b)
}

/// One tier of the allow-list.
pub open spec fn spec_whitelist_a() -> Seq<Seq<u8>> {
    seq![
        str_bytes("lua/*.lua"@),
        str_bytes("scenes/*.vcd"@),
        str_bytes("particles/*.pcf"@),
        str_bytes("resource/fonts/*.ttf"@),
        str_bytes("scripts/vehicles/*.txt"@),
        str_bytes("resource/localization/*/*.properties"@),
        str_bytes("maps/*.bsp"@),
        str_bytes("maps/*.lmp"@),
        str_bytes("maps/*.nav"@),
        str_bytes("maps/*.ain"@),
    ]
}
/// One tier of the allow-list.
pub open spec fn spec_whitelist_b() -> Seq<Seq<u8>> {
    seq![
        str_bytes("maps/thumb/*.png"@),
        str_bytes("sound/*.wav"@),
        str_bytes("sound/*.mp3"@),
        str_bytes("sound/*.ogg"@),
        str_bytes("materials/*.vmt"@),
        str_bytes("materials/*.vtf"@),
        str_bytes("materials/*.png"@),
        str_bytes("materials/*.jpg"@),
        str_bytes("materials/*.jpeg"@),
        str_bytes("materials/colorcorrection/*.raw"@),
    ]
}
/// One tier of the allow-list.
pub open spec fn spec_whitelist_c() -> Seq<Seq<u8>> {
    seq![
        str_bytes("models/*.mdl"@),
        str_bytes("models/*.vtx"@),
        str_bytes("models/*.phy"@),
        str_bytes("models/*.ani"@),
        str_bytes("models/*.vvd"@),
        str_bytes("gamemodes/*/*.txt"@),
        str_bytes("gamemodes/*/*.fgd"@),
        str_bytes("gamemodes/*/logo.png"@),
        str_bytes("gamemodes/*/icon24.png"@),
        str_bytes("gamemodes/*/gamemode/*.lua"@),
    ]
}
/// One tier of the allow-list.
pub open spec fn spec_whitelist_d() -> Seq<Seq<u8>> {
    seq![
        str_bytes("gamemodes/*/entities/effects/*.lua"@),
        str_bytes("gamemodes/*/entities/weapons/*.lua"@),
        str_bytes("gamemodes/*/entities/entities/*.lua"@),
        str_bytes("gamemodes/*/backgrounds/*.png"@),
        str_bytes("gamemodes/*/backgrounds/*.jpg"@),
        str_bytes("gamemodes/*/backgrounds/*.jpeg"@),
        str_bytes("gamemodes/*/content/models/*.mdl"@),
        str_bytes("gamemodes/*/content/models/*.vtx"@),
        str_bytes("gamemodes/*/content/models/*.phy"@),
        str_bytes("gamemodes/*/content/models/*.ani"@),
    ]
}
/// One tier of the allow-list.
pub open spec fn spec_whitelist_e() -> Seq<Seq<u8>> {
    seq![
        str_bytes("gamemodes/*/content/models/*.vvd"@),
        str_bytes("gamemodes/*/content/materials/*.vmt"@),
        str_bytes("gamemodes/*/content/materials/*.vtf"@),
        str_bytes("gamemodes/*/content/materials/*.png"@),
        str_bytes("gamemodes/*/content/materials/*.jpg"@),
        str_bytes("gamemodes/*/content/materials/*.jpeg"@),
        str_bytes("gamemodes/*/content/materials/colorcorrection/*.raw"@),
        str_bytes("gamemodes/*/content/scenes/*.vcd"@),
        str_bytes("gamemodes/*/content/particles/*.pcf"@),
        str_bytes("gamemodes/*/content/resource/fonts/*.ttf"@),
    ]
}
/// One tier of the allow-list.
pub open spec fn spec_whitelist_f() -> Seq<Seq<u8>> {
    seq![
        str_bytes("gamemodes/*/content/scripts/vehicles/*.txt"@),
        str_bytes("gamemodes/*/content/resource/localization/*/*.properties"@),
        str_bytes("gamemodes/*/content/maps/*.bsp"@),
        str_bytes("gamemodes/*/content/maps/*.nav"@),
        str_bytes("gamemodes/*/content/maps/*.ain"@),
        str_bytes("gamemodes/*/content/maps/thumb/*.png"@),
        str_bytes("gamemodes/*/content/sound/*.wav"@),
        str_bytes("gamemodes/*/content/sound/*.mp3"@),
        str_bytes("gamemodes/*/content/sound/*.ogg"@),
        str_bytes("data_static/*.txt"@),
    ]
}
/// One tier of the allow-list.
pub open spec fn spec_whitelist_g() -> Seq<Seq<u8>> {
    seq![
        str_bytes("data_static/*.dat"@),
        str_bytes("data_static/*.json"@),
        str_bytes("data_static/*.xml"@),
        str_bytes("data_static/*.csv"@),
        str_bytes("data_static/*.dem"@),
        str_bytes("data_static/*.vcd"@),
        str_bytes("data_static/*.vtf"@),
        str_bytes("data_static/*.vmt"@),
        str_bytes("data_static/*.png"@),
        str_bytes("data_static/*.jpg"@),
    ]
}
/// One tier of the allow-list.
pub open spec fn spec_whitelist_h() -> Seq<Seq<u8>> {
    seq![
        str_bytes("data_static/*.jpeg"@),
        str_bytes("data_static/*.mp3"@),
        str_bytes("data_static/*.wav"@),
        str_bytes("data_static/*.ogg"@),
    ]
}

/// Whether a relative path (as bytes) is acceptable as an archive entry:
/// some pattern of the fixed allow-list matches it.
pub open spec fn spec_whitelisted(b: Seq<u8>) -> bool {
    ||| spec_matches_any(spec_whitelist_a(), b)
    ||| spec_matches_any(spec_whitelist_b(), b)
    ||| spec_matches_any(spec_whitelist_c(), b)
    ||| spec_matches_any(spec_whitelist_d(), b)
    ||| spec_matches_any(spec_whitelist_e(), b)
    ||| spec_matches_any(spec_whitelist_f(), b)
    ||| spec_matches_any(spec_whitelist_g(), b)
    ||| spec_matches_any(spec_whitelist_h(), b)
}

/// Whether any pattern of an ignore list matches the path bytes.
pub open spec fn spec_is_ignored(b: Seq<u8>, ignore: Seq<Seq<u8>>) -> bool {
    spec_matches_any(ignore, b)
}

/// The byte view of each pattern string of an ignore list.
pub open spec fn spec_patterns_bytes(pats: Seq<String>) -> Seq<Seq<u8>> {
    pats.map_values(|p: String| str_bytes(p@))
}

fn whitelist_part_a() -> (pats: Vec<Vec<u8>>)
    ensures
        pats@.map_values(|v: Vec<u8>| v@) =~= spec_whitelist_a(),
{
    let mut pats: Vec<Vec<u8>> = Vec::new();
    pats.push(pattern("lua/*.lua"));
    pats.push(pattern("scenes/*.vcd"));
    pats.push(pattern("particles/*.pcf"));
    pats.push(pattern("resource/fonts/*.ttf"));
    pats.push(pattern("scripts/vehicles/*.txt"));
    pats.push(pattern("resource/localization/*/*.properties"));
    pats.push(pattern("maps/*.bsp"));
    pats.push(pattern("maps/*.lmp"));
    pats.push(pattern("maps/*.nav"));
    pats.push(pattern("maps/*.ain"));
    pats
}
fn whitelist_part_b() -> (pats: Vec<Vec<u8>>)
    ensures
        pats@.map_values(|v: Vec<u8>| v@) =~= spec_whitelist_b(),
{
    let mut pats: Vec<Vec<u8>> = Vec::new();
    pats.push(pattern("maps/thumb/*.png"));
    pats.push(pattern("sound/*.wav"));
    pats.push(pattern("sound/*.mp3"));
    pats.push(pattern("sound/*.ogg"));
    pats.push(pattern("materials/*.vmt"));
    pats.push(pattern("materials/*.vtf"));
    pats.push(pattern("materials/*.png"));
    pats.push(pattern("materials/*.jpg"));
    pats.push(pattern("materials/*.jpeg"));
    pats.push(pattern("materials/colorcorrection/*.raw"));
    pats
}
fn whitelist_part_c() -> (pats: Vec<Vec<u8>>)
    ensures
        pats@.map_values(|v: Vec<u8>| v@) =~= spec_whitelist_c(),
{
    let mut pats: Vec<Vec<u8>> = Vec::new();
    pats.push(pattern("models/*.mdl"));
    pats.push(pattern("models/*.vtx"));
    pats.push(pattern("models/*.phy"));
    pats.push(pattern("models/*.ani"));
    pats.push(pattern("models/*.vvd"));
    pats.push(pattern("gamemodes/*/*.txt"));
    pats.push(pattern("gamemodes/*/*.fgd"));
    pats.push(pattern("gamemodes/*/logo.png"));
    pats.push(pattern("gamemodes/*/icon24.png"));
    pats.push(pattern("gamemodes/*/gamemode/*.lua"));
    pats
}
fn whitelist_part_d() -> (pats: Vec<Vec<u8>>)
    ensures
        pats@.map_values(|v: Vec<u8>| v@) =~= spec_whitelist_d(),
{
    let mut pats: Vec<Vec<u8>> = Vec::new();
    pats.push(pattern("gamemodes/*/entities/effects/*.lua"));
    pats.push(pattern("gamemodes/*/entities/weapons/*.lua"));
    pats.push(pattern("gamemodes/*/entities/entities/*.lua"));
    pats.push(pattern("gamemodes/*/backgrounds/*.png"));
    pats.push(pattern("gamemodes/*/backgrounds/*.jpg"));
    pats.push(pattern("gamemodes/*/backgrounds/*.jpeg"));
    pats.push(pattern("gamemodes/*/content/models/*.mdl"));
    pats.push(pattern("gamemodes/*/content/models/*.vtx"));
    pats.push(pattern("gamemodes/*/content/models/*.phy"));
    pats.push(pattern("gamemodes/*/content/models/*.ani"));
    pats
}
fn whitelist_part_e() -> (pats: Vec<Vec<u8>>)
    ensures
        pats@.map_values(|v: Vec<u8>| v@) =~= spec_whitelist_e(),
{
    let mut pats: Vec<Vec<u8>> = Vec::new();
    pats.push(pattern("gamemodes/*/content/models/*.vvd"));
    pats.push(pattern("gamemodes/*/content/materials/*.vmt"));
    pats.push(pattern("gamemodes/*/content/materials/*.vtf"));
    pats.push(pattern("gamemodes/*/content/materials/*.png"));
    pats.push(pattern("gamemodes/*/content/materials/*.jpg"));
    pats.push(pattern("gamemodes/*/content/materials/*.jpeg"));
    pats.push(pattern("gamemodes/*/content/materials/colorcorrection/*.raw"));
    pats.push(pattern("gamemodes/*/content/scenes/*.vcd"));
    pats.push(pattern("gamemodes/*/content/particles/*.pcf"));
    pats.push(pattern("gamemodes/*/content/resource/fonts/*.ttf"));
    pats
}
fn whitelist_part_f() -> (pats: Vec<Vec<u8>>)
    ensures
        pats@.map_values(|v: Vec<u8>| v@) =~= spec_whitelist_f(),
{
    let mut pats: Vec<Vec<u8>> = Vec::new();
    pats.push(pattern("gamemodes/*/content/scripts/vehicles/*.txt"));
    pats.push(pattern("gamemodes/*/content/resource/localization/*/*.properties"));
    pats.push(pattern("gamemodes/*/content/maps/*.bsp"));
    pats.push(pattern("gamemodes/*/content/maps/*.nav"));
    pats.push(pattern("gamemodes/*/content/maps/*.ain"));
    pats.push(pattern("gamemodes/*/content/maps/thumb/*.png"));
    pats.push(pattern("gamemodes/*/content/sound/*.wav"));
    pats.push(pattern("gamemodes/*/content/sound/*.mp3"));
    pats.push(pattern("gamemodes/*/content/sound/*.ogg"));
    pats.push(pattern("data_static/*.txt"));
    pats
}
fn whitelist_part_g() -> (pats: Vec<Vec<u8>>)
    ensures
        pats@.map_values(|v: Vec<u8>| v@) =~= spec_whitelist_g(),
{
    let mut pats: Vec<Vec<u8>> = Vec::new();
    pats.push(pattern("data_static/*.dat"));
    pats.push(pattern("data_static/*.json"));
    pats.push(pattern("data_static/*.xml"));
    pats.push(pattern("data_static/*.csv"));
    pats.push(pattern("data_static/*.dem"));
    pats.push(pattern("data_static/*.vcd"));
    pats.push(pattern("data_static/*.vtf"));
    pats.push(pattern("data_static/*.vmt"));
    pats.push(pattern("data_static/*.png"));
    pats.push(pattern("data_static/*.jpg"));
    pats
}
fn whitelist_part_h() -> (pats: Vec<Vec<u8>>)
    ensures
        pats@.map_values(|v: Vec<u8>| v@) =~= spec_whitelist_h(),
{
    let mut pats: Vec<Vec<u8>> = Vec::new();
    pats.push(pattern("data_static/*.jpeg"));
    pats.push(pattern("data_static/*.mp3"));
    pats.push(pattern("data_static/*.wav"));
    pats.push(pattern("data_static/*.ogg"));
    pats
}

/// Runs the matcher over a list of patterns.
fn matches_any(pats: &Vec<Vec<u8>>, bytes: &[u8]) -> (r: bool)
    ensures
        r == spec_matches_any(pats@.map_values(|v: Vec<u8>| v@), bytes@),
{
    let ghost view = pats@.map_values(|v: Vec<u8>| v@);
    let mut i: usize = 0;
    while i < pats.len()
        invariant
            i <= pats@.len(),
            view == pats@.map_values(|v: Vec<u8>| v@),
            forall|j: int| 0 <= j < i ==> !glob_matches(view[j], bytes@),
        decreases pats@.len() - i,
    {
        if globber(pats[i].as_slice(), bytes) {
            proof {
                assert(glob_matches(view[i as int], bytes@));
            }
            return true;
        }
        i += 1;
    }
    false
}

/// Check if a path is allowed in a GMA file.
pub fn check(path: &str) -> (r: bool)
    ensures
        r == spec_whitelisted(str_bytes(path@)),
{
    let bytes = path.as_bytes();
    proof {
        lemma_str_bytes(path@);
    }
    if matches_any(&whitelist_part_a(), bytes) {
        return true;
    }
    if matches_any(&whitelist_part_b(), bytes) {
        return true;
    }
    if matches_any(&whitelist_part_c(), bytes) {
        return true;
    }
    if matches_any(&whitelist_part_d(), bytes) {
        return true;
    }
    if matches_any(&whitelist_part_e(), bytes) {
        return true;
    }
    if matches_any(&whitelist_part_f(), bytes) {
        return true;
    }
    if matches_any(&whitelist_part_g(), bytes) {
        return true;
    }
    if matches_any(&whitelist_part_h(), bytes) {
        return true;
    }
    false
}

/// Check if a path is ignored by a list of custom globs.
pub fn is_ignored(path: &str, ignore: &[String]) -> (r: bool)
    ensures
        r == spec_is_ignored(str_bytes(path@), spec_patterns_bytes(ignore@)),
{
    let bytes = path.as_bytes();
    proof {
        lemma_str_bytes(path@);
    }
    let mut i: usize = 0;
    while i < ignore.len()
        invariant
            i <= ignore@.len(),
            bytes@ == str_bytes(path@),
            forall|j: int|
                0 <= j < i ==> !glob_matches(
                    spec_patterns_bytes(ignore@)[j],
                    str_bytes(path@),
                ),
        decreases ignore@.len() - i,
    {
        let matched = globber(ignore[i].as_str().as_bytes(), bytes);
        proof {
            lemma_str_bytes(ignore@[i as int]@);
            assert(spec_patterns_bytes(ignore@)[i as int] == str_bytes(ignore@[i as int]@));
        }
        if matched {
            proof {
                assert(glob_matches(spec_patterns_bytes(ignore@)[i as int], str_bytes(path@)));
            }
            return true;
        }
        i += 1;
    }
    false
}

/// The pattern `*` matches every path.
pub proof fn lemma_star_matches_everything(s: Seq<u8>)
    ensures
        glob_matches(seq![WILD_BYTE], s),
{
    lemma_all_wild_matches(seq![WILD_BYTE], s);
}

/// A pattern without stars matches itself: each byte matches itself, and
/// `?` matches any single byte, its own image included.
pub proof fn lemma_glob_reflexive(p: Seq<u8>)
    requires
        star_free(p),
    ensures
        glob_matches(p, p),
    decreases p.len(),
{
    if p.len() > 0 {
        assert forall|i: int| 0 <= i < p.drop_first().len() implies p.drop_first()[i]
            != WILD_BYTE by {
            assert(p[i + 1] != WILD_BYTE);
        }
        lemma_glob_reflexive(p.drop_first());
    }
}

} // verus!
