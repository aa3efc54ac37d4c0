//! Content policy: the block-list filter and the verification-code
//! transform that run over a message before it is dispatched.

use vstd::prelude::*;

verus! {

/// Why a message was refused.
#[derive(Debug, Clone, Copy, PartialEq, Eq, Structural)]
pub enum PolicyError {
    /// The message holds a word of the tenant's block list.
    Blocked,
}

/// The characters with the Unicode `White_Space` property; trimming a
/// block-list entry strips these from its ends.
pub open spec fn is_ws(c: char) -> bool {
    c == ' ' || c == '\t' || c == '\n' || c == '\u{b}' || c == '\u{c}' || c == '\r' || c
        == '\u{85}' || c == '\u{a0}' || c == '\u{1680}' || ((c as u32) >= 0x2000 && (c as u32)
        <= 0x200a) || c == '\u{2028}' || c == '\u{2029}' || c == '\u{202f}' || c == '\u{205f}' || c
        == '\u{3000}'
}

/// How many whitespace characters `s` starts with.
pub open spec fn lead_ws(s: Seq<char>) -> nat
    decreases s.len(),
{
    if s.len() == 0 || !is_ws(s[0]) {
        0
    } else {
        1 + lead_ws(s.skip(1))
    }
}

/// How many whitespace characters `s` ends with.
pub open spec fn trail_ws(s: Seq<char>) -> nat
    decreases s.len(),
{
    if s.len() == 0 || !is_ws(s.last()) {
        0
    } else {
        1 + trail_ws(s.take(s.len() - 1))
    }
}

/// `s` without leading and trailing whitespace.
pub open spec fn trim(s: Seq<char>) -> Seq<char> {
    let t = s.skip(lead_ws(s) as int);
    t.take(t.len() - trail_ws(t))
}

/// Whether `ndl` occurs in `hay` starting at position `p`.
pub open spec fn matches_at(hay: Seq<char>, ndl: Seq<char>, p: int) -> bool {
    0 <= p && p + ndl.len() <= hay.len() && hay.subrange(p, p + ndl.len()) == ndl
}

/// Whether `ndl` is a literal substring of `hay`.
pub open spec fn contains_seq(hay: Seq<char>, ndl: Seq<char>) -> bool {
    exists|p: int| matches_at(hay, ndl, p)
}

/// Whether `[i, j)` spans one comma-separated entry of `bl`: it touches a
/// comma or an end of the string on both sides and holds no comma itself.
pub open spec fn is_segment(bl: Seq<char>, i: int, j: int) -> bool {
    &&& 0 <= i <= j <= bl.len()
    &&& (i == 0 || bl[i - 1] == ',')
    &&& (j == bl.len() || bl[j] == ',')
    &&& (forall|k: int| i <= k < j ==> bl[k] != ',')
}

/// Whether the entry `[i, j)` of `bl`, once trimmed, is non-empty and occurs
/// in `msg`.
pub open spec fn blocked_by(msg: Seq<char>, bl: Seq<char>, i: int, j: int) -> bool {
    &&& is_segment(bl, i, j)
    &&& trim(bl.subrange(i, j)).len() > 0
    &&& contains_seq(msg, trim(bl.subrange(i, j)))
}

/// Whether any block-list entry blocks `msg`.
pub open spec fn blocked(msg: Seq<char>, bl: Seq<char>) -> bool {
    exists|i: int, j: int| blocked_by(msg, bl, i, j)
}

fn is_ws_char(c: char) -> (b: bool)
    ensures
        b == is_ws(c),
{
    let u = c as u32;
    u == 0x20 || u == 0x9 || u == 0xa || u == 0xb || u == 0xc || u == 0xd || u == 0x85 || u == 0xa0
        || u == 0x1680 || (u >= 0x2000 && u <= 0x200a) || u == 0x2028 || u == 0x2029 || u == 0x202f
        || u == 0x205f || u == 0x3000
}

proof fn lemma_lead_ws_char(s: Seq<char>, k: int)
    requires
        0 <= k <= s.len(),
        forall|i: int| 0 <= i < k ==> is_ws(s[i]),
        k == s.len() || !is_ws(s[k]),
    ensures
        lead_ws(s) == k,
    decreases s.len(),
{
    if k > 0 {
        let t = s.skip(1);
        assert(forall|i: int| 0 <= i < k - 1 ==> t[i] == s[i + 1]);
        if k - 1 < t.len() {
            assert(t[k - 1] == s[k]);
        }
        lemma_lead_ws_char(t, k - 1);
    }
}

proof fn lemma_trail_ws_char(s: Seq<char>, k: int)
    requires
        0 <= k <= s.len(),
        forall|i: int| s.len() - k <= i < s.len() ==> is_ws(s[i]),
        k == s.len() || !is_ws(s[s.len() - k - 1]),
    ensures
        trail_ws(s) == k,
    decreases s.len(),
{
    if k > 0 {
        assert(is_ws(s.last()));
        let t = s.take(s.len() - 1);
        assert(forall|i: int| 0 <= i < t.len() ==> t[i] == s[i]);
        lemma_trail_ws_char(t, k - 1);
    } else {
        if s.len() > 0 {
            assert(!is_ws(s[s.len() - 1]));
        }
    }
}

/// Whether `bl[a..b)` occurs in `hay`.
fn contains_word(hay: &Vec<char>, bl: &Vec<char>, a: usize, b: usize) -> (r: bool)
    requires
        a <= b <= bl@.len(),
    ensures
        r == contains_seq(hay@, bl@.subrange(a as int, b as int)),
{
    let ghost w = bl@.subrange(a as int, b as int);
    let wlen: usize = b - a;
    let hlen: usize = hay.len();
    if wlen > hlen {
        proof {
            assert(forall|p: int| !matches_at(hay@, w, p));
        }
        return false;
    }
    let mut p: usize = 0;
    while p <= hlen - wlen
        invariant
            wlen == w.len(),
            wlen <= hlen,
            hlen == hay@.len(),
            w == bl@.subrange(a as int, b as int),
            a <= b <= bl@.len(),
            p <= hlen - wlen + 1,
            forall|q: int| 0 <= q < p ==> !matches_at(hay@, w, q),
        decreases hlen - wlen - p + 1,
    {
        let mut t: usize = 0;
        let mut all_eq: bool = true;
        while t < wlen
            invariant
                wlen == w.len(),
                wlen <= hlen,
                hlen == hay@.len(),
                w == bl@.subrange(a as int, b as int),
                a <= b <= bl@.len(),
                p + wlen <= hlen,
                t <= wlen,
                all_eq == (forall|u: int| 0 <= u < t ==> hay@[p + u] == w[u]),
            decreases wlen - t,
        {
            let he = hay[p + t];
            let we = bl[a + t];
            proof {
                assert(w[t as int] == bl@[a + t]);
            }
            if he != we {
                all_eq = false;
                proof {
                    assert(hay@[p + t] != w[t as int]);
                }
                t = wlen;
            } else {
                t += 1;
            }
        }
        if all_eq {
            proof {
                assert(hay@.subrange(p as int, p + wlen) =~= w);
                assert(matches_at(hay@, w, p as int));
            }
            return true;
        }
        proof {
            let ghost u0 = choose|u: int| 0 <= u < wlen && hay@[p + u] != w[u];
            assert(!matches_at(hay@, w, p as int)) by {
                if matches_at(hay@, w, p as int) {
                    assert(hay@.subrange(p as int, p + wlen)[u0] == w[u0]);
                }
            }
        }
        p += 1;
    }
    proof {
        assert forall|q: int| !matches_at(hay@, w, q) by {
            if 0 <= q < p {
            } else {
                assert(!(0 <= q && q + w.len() <= hay@.len()) || q >= p);
            }
        }
    }
    false
}

/// Filter `message` against the tenant's comma-separated block list.
///
/// The list is split on commas and each entry is trimmed; a non-empty entry
/// that occurs in the message (case-sensitive, literal) blocks it.  An
/// unblocked message is returned unchanged.
pub fn apply_block_list(message: &str, block_list: &str) -> (r: Result<String, PolicyError>)
    ensures
        r is Err <==> blocked(message@, block_list@),
        r is Err ==> r == Result::<String, PolicyError>::Err(PolicyError::Blocked),
        r is Ok ==> r.unwrap()@ == message@,
{
    let msg = crate::text::chars_of(message);
    let bl = crate::text::chars_of(block_list);
    let bllen: usize = bl.len();
    let mut start: usize = 0;
    while start <= bllen
        invariant
            start <= bllen,
            msg@ == message@,
            bl@ == block_list@,
            bllen == bl@.len(),
            start == 0 || bl@[start - 1] == ',',
            forall|i2: int, j2: int|
                is_segment(bl@, i2, j2) && i2 < start ==> !blocked_by(msg@, bl@, i2, j2),
        decreases bllen - start,
    {
        // the entry runs to the next comma or the end
        let mut j: usize = start;
        while j < bllen && bl[j] != ','
            invariant
                start <= j <= bllen,
                bllen == bl@.len(),
                forall|k: int| start <= k < j ==> bl@[k] != ',',
            decreases bllen - j,
        {
            j += 1;
        }
        // trim the entry
        let mut a: usize = start;
        while a < j && is_ws_char(bl[a])
            invariant
                start <= a <= j <= bllen,
                bllen == bl@.len(),
                forall|k: int| start <= k < a ==> is_ws(bl@[k]),
            decreases j - a,
        {
            a += 1;
        }
        let mut b2: usize = j;
        while b2 > a && is_ws_char(bl[b2 - 1])
            invariant
                a <= b2 <= j <= bllen,
                bllen == bl@.len(),
                forall|k: int| b2 <= k < j ==> is_ws(bl@[k]),
            decreases b2,
        {
            b2 -= 1;
        }
        proof {
            let seg = bl@.subrange(start as int, j as int);
            assert(forall|i: int| 0 <= i < seg.len() ==> seg[i] == bl@[start + i]);
            lemma_lead_ws_char(seg, a - start);
            let t = seg.skip(a - start);
            assert(t =~= bl@.subrange(a as int, j as int));
            assert(forall|i: int| 0 <= i < t.len() ==> t[i] == bl@[a + i]);
            lemma_trail_ws_char(t, j - b2);
            assert(trim(seg) =~= bl@.subrange(a as int, b2 as int));
            assert(is_segment(bl@, start as int, j as int));
        }
        if b2 > a {
            if contains_word(&msg, &bl, a, b2) {
                proof {
                    assert(blocked_by(msg@, bl@, start as int, j as int));
                }
                return Err(PolicyError::Blocked);
            }
        }
        proof {
            assert(!blocked_by(msg@, bl@, start as int, j as int));
            assert forall|i2: int, j2: int|
                is_segment(bl@, i2, j2) && i2 < j + 1 implies !blocked_by(
                msg@,
                bl@,
                i2,
                j2,
            ) by {
                if i2 >= start {
                    if i2 > start {
                        // a comma would sit inside the current entry
                        assert(bl@[i2 - 1] == ',');
                        assert(false);
                    } else {
                        // the entry's end is pinned down
                        if j2 < j {
                            assert(bl@[j2] == ',');
                            assert(false);
                        }
                        if j2 > j {
                            assert(j < bllen);
                            assert(bl@[j as int] != ',');
                            assert(false);
                        }
                    }
                }
            }
        }
        if j == bllen {
            proof {
                assert forall|i2: int, j2: int|
                    is_segment(bl@, i2, j2) implies !blocked_by(msg@, bl@, i2, j2) by {
                    assert(i2 <= j2 <= bllen);
                }
                assert(!blocked(msg@, bl@));
            }
            return Ok(message.to_owned());
        }
        start = j + 1;
    }
    // unreachable: every pass either returns or moves past a comma
    Ok(message.to_owned())
}

/// A character that can appear in a verification code: an ASCII letter, an
/// ASCII digit or a hyphen.
pub open spec fn is_code_char(c: char) -> bool {
    ((c as u32) >= 0x30 && (c as u32) <= 0x39) || ((c as u32) >= 0x41 && (c as u32) <= 0x5a) || ((
    c as u32) >= 0x61 && (c as u32) <= 0x7a) || c == '-'
}

/// The end of the run of code characters that starts at `p`.
pub open spec fn run_end(s: Seq<char>, p: int) -> int
    decreases s.len() - p,
{
    if p < 0 || p >= s.len() || !is_code_char(s[p]) {
        p
    } else {
        run_end(s, p + 1)
    }
}

/// Whether a qualifying code run — a maximal run of length at least 4 —
/// starts at `p`.
pub open spec fn run_starts(s: Seq<char>, p: int) -> bool {
    &&& 0 <= p < s.len()
    &&& is_code_char(s[p])
    &&& (p == 0 || !is_code_char(s[p - 1]))
    &&& run_end(s, p) - p >= 4
}

/// The last position at or before `p` where a qualifying run starts.
pub open spec fn last_run_from(s: Seq<char>, p: int) -> Option<int>
    decreases p + 1,
{
    if p < 0 {
        None
    } else if run_starts(s, p) {
        Some(p)
    } else {
        last_run_from(s, p - 1)
    }
}

/// The first position at or after `from` where `s` holds `c`; `s.len()` when
/// there is none.
pub open spec fn first_at(s: Seq<char>, c: char, from: int) -> int
    decreases s.len() - from,
{
    if from < 0 || from >= s.len() {
        s.len() as int
    } else if s[from] == c {
        from
    } else {
        first_at(s, c, from + 1)
    }
}

/// The code and sender a message yields, when it matches: the message starts
/// with `【`, a non-empty sender free of newlines runs to the first `】`, and
/// a qualifying code run starts between the bracket and the end of that line;
/// the code is the last such run, capped at its first 8 characters.
pub open spec fn captcha_parts(s: Seq<char>) -> Option<(Seq<char>, Seq<char>)> {
    if s.len() == 0 || s[0] != '【' {
        None
    } else {
        let e = first_at(s, '】', 1);
        if e == 1 || e >= s.len() {
            None
        } else {
            let sender = s.subrange(1, e);
            if sender.contains('\n') {
                None
            } else {
                let nl = first_at(s, '\n', e + 1);
                let region = s.subrange(e + 1, nl);
                match last_run_from(region, region.len() - 1) {
                    None => None,
                    Some(p) => {
                        let q = run_end(region, p);
                        let cut = if q - p > 8 {
                            p + 8
                        } else {
                            q
                        };
                        Some((region.subrange(p, cut), sender))
                    },
                }
            }
        }
    }
}

/// What the verification-code transform yields: `code - sender` on a line of
/// its own followed by the original message when it matches, the message
/// unchanged otherwise.
pub open spec fn captcha_spec(s: Seq<char>) -> Seq<char> {
    match captcha_parts(s) {
        None => s,
        Some(parts) => parts.0 + seq![' ', '-', ' '] + parts.1 + seq!['\n'] + s,
    }
}

fn is_code_char_exec(c: char) -> (b: bool)
    ensures
        b == is_code_char(c),
{
    let u = c as u32;
    (u >= 0x30 && u <= 0x39) || (u >= 0x41 && u <= 0x5a) || (u >= 0x61 && u <= 0x7a) || u == 0x2d
}

proof fn lemma_first_at_char(s: Seq<char>, c: char, from: int, e: int)
    requires
        0 <= from <= e <= s.len(),
        forall|k: int| from <= k < e ==> s[k] != c,
        e == s.len() || s[e] == c,
    ensures
        first_at(s, c, from) == e,
    decreases e - from,
{
    if from < e {
        lemma_first_at_char(s, c, from + 1, e);
    }
}

proof fn lemma_run_end_char(s: Seq<char>, p: int, q: int)
    requires
        0 <= p <= q <= s.len(),
        forall|k: int| p <= k < q ==> is_code_char(s[k]),
        q == s.len() || !is_code_char(s[q]),
    ensures
        run_end(s, p) == q,
    decreases q - p,
{
    if p < q {
        lemma_run_end_char(s, p + 1, q);
    }
}

proof fn lemma_last_run_some(s: Seq<char>, top: int, p: int)
    requires
        0 <= p <= top,
        run_starts(s, p),
        forall|q: int| p < q <= top ==> !run_starts(s, q),
    ensures
        last_run_from(s, top) == Some(p),
    decreases top - p,
{
    if top > p {
        lemma_last_run_some(s, top - 1, p);
    }
}

proof fn lemma_last_run_none(s: Seq<char>, top: int)
    requires
        forall|q: int| 0 <= q <= top ==> !run_starts(s, q),
    ensures
        last_run_from(s, top) == None::<int>,
    decreases top + 1,
{
    if top >= 0 {
        lemma_last_run_none(s, top - 1);
    }
}

/// Extract a verification code and its sender from a message.
///
/// A message of the shape `【sender】… code …` — the sender non-empty and on
/// the bracket's line, the code the last run of 4 or more letters, digits or
/// hyphens (capped at its first 8 characters) between the closing bracket and
/// the end of that line — becomes `code - sender` on a line of its own,
/// followed by the whole original message.  Any other message is returned
/// unchanged.
pub fn captcha(content: &str) -> (r: String)
    ensures
        r@ == captcha_spec(content@),
{
    let chars = crate::text::chars_of(content);
    let clen: usize = chars.len();
    if clen == 0 || chars[0] != '【' {
        return content.to_owned();
    }

    // the sender runs to the first closing bracket
    let mut e: usize = 1;
    while e < clen && chars[e] != '】'
        invariant
            1 <= e <= clen,
            clen == chars@.len(),
            forall|k: int| 1 <= k < e ==> chars@[k] != '】',
        decreases clen - e,
    {
        e += 1;
    }
    proof {
        lemma_first_at_char(chars@, '】', 1, e as int);
    }
    if e == 1 || e >= clen {
        return content.to_owned();
    }
    let ghost sender = chars@.subrange(1, e as int);

    // the sender must sit on the bracket's own line
    let mut k: usize = 1;
    while k < e
        invariant
            1 <= k <= e,
            e < clen,
            1 < e,
            clen == chars@.len(),
            chars@ == content@,
            chars@[0] == '【',
            first_at(chars@, '】', 1) == e as int,
            sender == chars@.subrange(1, e as int),
            forall|t: int| 1 <= t < k ==> chars@[t] != '\n',
        decreases e - k,
    {
        if chars[k] == '\n' {
            proof {
                assert(sender[k - 1] == '\n');
                assert(sender.contains('\n'));
            }
            return content.to_owned();
        }
        k += 1;
    }
    proof {
        assert(!sender.contains('\n')) by {
            if sender.contains('\n') {
                let t = choose|t: int| 0 <= t < sender.len() && sender[t] == '\n';
                assert(chars@[t + 1] == '\n');
            }
        }
    }

    // the code is sought before the line ends
    let mut nl: usize = e + 1;
    while nl < clen && chars[nl] != '\n'
        invariant
            e + 1 <= nl <= clen,
            clen == chars@.len(),
            forall|k2: int| e + 1 <= k2 < nl ==> chars@[k2] != '\n',
        decreases clen - nl,
    {
        nl += 1;
    }
    proof {
        lemma_first_at_char(chars@, '\n', e as int + 1, nl as int);
    }
    let ghost region = chars@.subrange(e as int + 1, nl as int);
    proof {
        assert(forall|t: int| 0 <= t < region.len() ==> region[t] == chars@[e + 1 + t]);
    }

    // find the last qualifying run of code characters
    let mut q: usize = e + 1;
    let mut best: usize = 0;
    let mut best_end: usize = 0;
    let mut found: bool = false;
    while q < nl
        invariant
            e + 1 <= q <= nl <= clen,
            clen == chars@.len(),
            region == chars@.subrange(e as int + 1, nl as int),
            region.len() == nl - e - 1,
            found ==> e + 1 <= best && best + 4 <= best_end && best_end <= nl && run_starts(
                region,
                best - e - 1,
            ) && run_end(region, best - e - 1) == best_end - e - 1,
            found ==> forall|t: int| best - e - 1 < t < q - e - 1 ==> !run_starts(region, t),
            !found ==> forall|t: int| 0 <= t < q - e - 1 ==> !run_starts(region, t),
        decreases nl - q,
    {
        let code_here = is_code_char_exec(chars[q]);
        let starts = code_here && (q == e + 1 || !is_code_char_exec(chars[q - 1]));
        if starts {
            // measure the run
            let mut rend: usize = q;
            while rend < nl && is_code_char_exec(chars[rend])
                invariant
                    q <= rend <= nl <= clen,
                    clen == chars@.len(),
                    forall|k2: int| q <= k2 < rend ==> is_code_char(chars@[k2]),
                decreases nl - rend,
            {
                rend += 1;
            }
            proof {
                assert(forall|k2: int|
                    q - e - 1 <= k2 < rend - e - 1 ==> is_code_char(region[k2]));
                lemma_run_end_char(region, q as int - e - 1, rend as int - e - 1);
            }
            if rend - q >= 4 {
                proof {
                    assert(run_starts(region, q as int - e - 1));
                }
                best = q;
                best_end = rend;
                found = true;
            } else {
                proof {
                    assert(!run_starts(region, q as int - e - 1));
                }
            }
        } else {
            proof {
                assert(!run_starts(region, q as int - e - 1));
            }
        }
        q += 1;
    }
    if !found {
        proof {
            lemma_last_run_none(region, region.len() as int - 1);
        }
        return content.to_owned();
    }
    let ghost p = best as int - e - 1;
    proof {
        lemma_last_run_some(region, region.len() as int - 1, p);
    }

    // assemble `code - sender`, a newline, and the original message
    let cut: usize = if best_end - best > 8 {
        best + 8
    } else {
        best_end
    };
    let ghost code = region.subrange(p, cut as int - e - 1);
    let mut out: Vec<char> = Vec::new();
    let mut t: usize = best;
    while t < cut
        invariant
            best <= t <= cut <= clen,
            clen == chars@.len(),
            out@ =~= chars@.subrange(best as int, t as int),
        decreases cut - t,
    {
        out.push(chars[t]);
        t += 1;
    }
    proof {
        assert(out@ =~= code);
    }
    out.push(' ');
    out.push('-');
    out.push(' ');
    let mut t: usize = 1;
    while t < e
        invariant
            1 <= t <= e <= clen,
            clen == chars@.len(),
            out@ =~= code + seq![' ', '-', ' '] + chars@.subrange(1, t as int),
        decreases e - t,
    {
        out.push(chars[t]);
        t += 1;
    }
    out.push('\n');
    let mut t: usize = 0;
    while t < clen
        invariant
            t <= clen,
            clen == chars@.len(),
            out@ =~= code + seq![' ', '-', ' '] + sender + seq!['\n'] + chars@.subrange(
                0,
                t as int,
            ),
        decreases clen - t,
    {
        out.push(chars[t]);
        t += 1;
    }
    proof {
        assert(chars@.subrange(0, clen as int) =~= chars@);
        assert(out@ =~= captcha_spec(content@));
    }
    crate::text::string_from_chars(&out)
}

/// Law: an empty block list blocks nothing.
pub proof fn lemma_empty_block_list(msg: Seq<char>)
    ensures
        !blocked(msg, Seq::<char>::empty()),
{
    let bl = Seq::<char>::empty();
    if blocked(msg, bl) {
        let (i, j) = choose|i: int, j: int| blocked_by(msg, bl, i, j);
        assert(i == 0 && j == 0);
        let seg = bl.subrange(0, 0);
        assert(seg =~= Seq::<char>::empty());
        assert(lead_ws(seg) == 0);
        assert(seg.skip(0) =~= seg);
        assert(trail_ws(seg) == 0);
        assert(trim(seg).len() == 0);
    }
}

/// Law: a message that does not open with the sender bracket is returned
/// unchanged by the verification-code transform.
pub proof fn lemma_captcha_without_bracket(s: Seq<char>)
    requires
        s.len() == 0 || s[0] != '\u{3010}',
    ensures
        captcha_spec(s) == s,
{
}

} // verus!
