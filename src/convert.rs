//! Rewriting a whole text: every line that holds a vmess link becomes its
//! Quantumult form, every other line is kept.

use vstd::prelude::*;
use vstd::std_specs::iter::IteratorSpec;
use vstd::string::*;

use crate::codec::{decode_vmess_uri, descriptor_of_uri, ConvertError};
use crate::text::push;
use crate::vmess::{base_clause, quan_clause, quan_uri, url_safe_base64_of, ConvertConfig, ConvertConfigView};
use vstd::utf8::encode_utf8;

verus! {

broadcast use vstd::string::next_postcondition;

/// The prefix of a vmess link.
pub open spec fn marker() -> Seq<char> {
    "vmess://"@
}

/// Whether `line` holds the vmess prefix anywhere.
pub open spec fn has_marker(line: Seq<char>) -> bool {
    exists|i: int| 0 <= i && i + 8 <= line.len() && #[trigger] line.subrange(i, i + 8) == marker()
}

/// `line` without one trailing carriage return.
pub open spec fn strip_cr(line: Seq<char>) -> Seq<char> {
    if line.len() > 0 && line.last() == '\r' { line.drop_last() } else { line }
}

/// The pieces of `s` between newlines: one more than there are newlines.
pub open spec fn split_newlines(s: Seq<char>) -> Seq<Seq<char>>
    decreases s.len(),
{
    if s.len() == 0 {
        seq![Seq::empty()]
    } else {
        let p = split_newlines(s.drop_last());
        if s.last() == '\n' {
            p.push(Seq::empty())
        } else {
            p.update(p.len() - 1, p.last().push(s.last()))
        }
    }
}

/// The lines that a newline ends, each with its newline.
pub open spec fn terminated_lines(s: Seq<char>) -> Seq<Seq<char>> {
    split_newlines(s).drop_last().map_values(|l: Seq<char>| l.push('\n'))
}

/// The lines of `s`, each as it stands, terminator included: each newline ends
/// one, and text after the last newline is one more line.
pub open spec fn lines_of(s: Seq<char>) -> Seq<Seq<char>> {
    let tail = split_newlines(s).last();
    terminated_lines(s) + if tail.len() == 0 { Seq::empty() } else { seq![tail] }
}

/// The Quantumult link for a vmess link, or why the link could not be read.
pub open spec fn converted_uri(ins: Seq<char>, cfg: ConvertConfigView) -> Result<Seq<char>, ConvertError>
    recommends
        ins.len() >= 8,
{
    match descriptor_of_uri(ins) {
        Ok(c) => Ok(quan_uri(c, cfg)),
        Err(e) => Err(e),
    }
}

/// The text of a line without its terminator (`\n` or `\r\n`).
pub open spec fn line_content(line: Seq<char>) -> Seq<char> {
    if line.len() > 0 && line.last() == '\n' { strip_cr(line.drop_last()) } else { line }
}

/// What one line becomes: a line whose text holds the vmess prefix becomes the
/// link of that text followed by a newline; any other line is kept exactly,
/// terminator included.
pub open spec fn converted_line(line: Seq<char>, cfg: ConvertConfigView) -> Result<Seq<char>, ConvertError> {
    if has_marker(line_content(line)) {
        match converted_uri(line_content(line), cfg) {
            Ok(u) => Ok(u + "\n"@),
            Err(e) => Err(e),
        }
    } else {
        Ok(line)
    }
}

/// The lines converted one after another; the first line that fails decides the
/// error.
pub open spec fn converted_lines(lines: Seq<Seq<char>>, cfg: ConvertConfigView) -> Result<Seq<char>, ConvertError>
    decreases lines.len(),
{
    if lines.len() == 0 {
        Ok(Seq::empty())
    } else {
        match converted_lines(lines.drop_last(), cfg) {
            Err(e) => Err(e),
            Ok(prev) => match converted_line(lines.last(), cfg) {
                Err(e) => Err(e),
                Ok(out) => Ok(prev + out),
            },
        }
    }
}

/// What a whole text becomes.
pub open spec fn converted_text(s: Seq<char>, cfg: ConvertConfigView) -> Result<Seq<char>, ConvertError> {
    converted_lines(lines_of(s), cfg)
}

fn chars_of(s: &str) -> (r: Vec<char>)
    ensures
        r@ == s@,
{
    let mut it = s.chars();
    proof {
        axiom_spec_iter(s);
    }
    let mut out: Vec<char> = Vec::new();
    loop
        invariant
            out@ + it.remaining() == s@,
            it.decrease() is Some,
        decreases it.decrease()->0,
    {
        let ghost before = it.remaining();
        match it.next() {
            Some(c) => {
                out.push(c);
                assert(out@ + it.remaining() =~= s@) by {
                    assert(before =~= seq![c] + it.remaining());
                }
            },
            None => {
                assert(out@ =~= s@);
                return out;
            },
        }
    }
}

fn marker_at(chars: &Vec<char>, i: usize) -> (r: bool)
    requires
        i + 8 <= chars.len(),
    ensures
        r == (chars@.subrange(i as int, i + 8) == marker()),
{
    proof {
        reveal_strlit("vmess://");
    }
    let r = chars[i] == 'v' && chars[i + 1] == 'm' && chars[i + 2] == 'e' && chars[i + 3] == 's'
        && chars[i + 4] == 's' && chars[i + 5] == ':' && chars[i + 6] == '/' && chars[i + 7] == '/';
    proof {
        let w = chars@.subrange(i as int, i + 8);
        if r {
            assert(w =~= marker());
        } else if w == marker() {
            assert(w[0] == marker()[0] && w[1] == marker()[1] && w[2] == marker()[2] && w[3] == marker()[3]);
            assert(w[4] == marker()[4] && w[5] == marker()[5] && w[6] == marker()[6] && w[7] == marker()[7]);
        }
    }
    r
}

fn line_has_marker(chars: &Vec<char>, start: usize, end: usize) -> (r: bool)
    requires
        start <= end <= chars.len(),
    ensures
        r == has_marker(chars@.subrange(start as int, end as int)),
{
    let ghost line = chars@.subrange(start as int, end as int);
    if end - start < 8 {
        return false;
    }
    let mut j: usize = start;
    while j <= end - 8
        invariant
            start <= j <= end,
            end - start >= 8,
            end <= chars.len(),
            line == chars@.subrange(start as int, end as int),
            forall|k: int| start <= k < j ==> #[trigger] chars@.subrange(k, k + 8) != marker(),
        decreases end - j,
    {
        if marker_at(chars, j) {
            assert(line.subrange(j - start, j - start + 8) =~= chars@.subrange(j as int, j + 8));
            return true;
        }
        j = j + 1;
    }
    proof {
        if has_marker(line) {
            let k = choose|k: int| 0 <= k && k + 8 <= line.len() && #[trigger] line.subrange(k, k + 8) == marker();
            assert(line.subrange(k, k + 8) =~= chars@.subrange(start + k, start + k + 8));
        }
    }
    false
}

/// Converts one vmess link, prefix included, into its Quantumult form.
pub fn convert_vmess_uri(ins: &str, convert_cfg: &ConvertConfig) -> (r: Result<String, ConvertError>)
    requires
        ins@.len() >= 8,
    ensures
        match r {
            Ok(out) => converted_uri(ins@, convert_cfg@) == Ok::<Seq<char>, ConvertError>(out@),
            Err(e) => converted_uri(ins@, convert_cfg@) == Err::<Seq<char>, ConvertError>(e),
        },
{
    match decode_vmess_uri(ins) {
        Ok(c) => Ok(c.to_quan_uri(convert_cfg)),
        Err(e) => Err(e),
    }
}

/// Converts the line `chars[start..line_end]`, whose text without terminator is
/// `chars[start..end]`.
fn convert_line(
    text: &str,
    chars: &Vec<char>,
    start: usize,
    end: usize,
    line_end: usize,
    convert_cfg: &ConvertConfig,
) -> (r: Result<String, ConvertError>)
    requires
        chars@ == text@,
        start <= end <= line_end <= chars.len(),
        line_content(chars@.subrange(start as int, line_end as int)) == chars@.subrange(start as int, end as int),
    ensures
        match r {
            Ok(out) => converted_line(chars@.subrange(start as int, line_end as int), convert_cfg@)
                == Ok::<Seq<char>, ConvertError>(out@),
            Err(e) => converted_line(chars@.subrange(start as int, line_end as int), convert_cfg@)
                == Err::<Seq<char>, ConvertError>(e),
        },
{
    if line_has_marker(chars, start, end) {
        let content = text.substring_char(start, end);
        let uri = convert_vmess_uri(content, convert_cfg)?;
        let mut out = String::from_str(uri.as_str());
        push(&mut out, "\n");
        Ok(out)
    } else {
        Ok(String::from_str(text.substring_char(start, line_end)))
    }
}

proof fn lemma_split_nonempty(s: Seq<char>)
    ensures
        split_newlines(s).len() >= 1,
    decreases s.len(),
{
    if s.len() > 0 {
        lemma_split_nonempty(s.drop_last());
    }
}

proof fn lemma_terminated_step(t: Seq<char>)
    requires
        t.len() > 0,
    ensures
        t.last() == '\n' ==> terminated_lines(t) == terminated_lines(t.drop_last()).push(
            split_newlines(t.drop_last()).last().push('\n'),
        ),
        t.last() != '\n' ==> terminated_lines(t) == terminated_lines(t.drop_last()),
{
    let p = split_newlines(t.drop_last());
    lemma_split_nonempty(t.drop_last());
    if t.last() == '\n' {
        assert(split_newlines(t).drop_last() =~= p);
        assert(p.map_values(|l: Seq<char>| l.push('\n')) =~= p.drop_last().map_values(|l: Seq<char>| l.push('\n')).push(
            p.last().push('\n'),
        ));
    } else {
        assert(split_newlines(t).drop_last() =~= p.drop_last());
    }
}

/// `terminated_lines` of a shorter prefix is a prefix of that of a longer one.
proof fn lemma_terminated_prefix(s: Seq<char>, k: int, m: int)
    requires
        0 <= k <= m <= s.len(),
    ensures
        terminated_lines(s.take(k)).len() <= terminated_lines(s.take(m)).len(),
        terminated_lines(s.take(m)).take(terminated_lines(s.take(k)).len() as int) == terminated_lines(s.take(k)),
    decreases m - k,
{
    let a = terminated_lines(s.take(k));
    if m == k {
        assert(a.take(a.len() as int) =~= a);
    } else {
        lemma_terminated_prefix(s, k, m - 1);
        assert(s.take(m).drop_last() =~= s.take(m - 1));
        lemma_terminated_step(s.take(m));
        let b = terminated_lines(s.take(m - 1));
        let c = terminated_lines(s.take(m));
        if s.take(m).last() == '\n' {
            assert(c.take(a.len() as int) =~= b.take(a.len() as int));
        }
    }
}

/// Once a prefix of the lines fails, the whole fails with the same error.
proof fn lemma_error_kept(a: Seq<Seq<char>>, b: Seq<Seq<char>>, cfg: ConvertConfigView)
    requires
        a.len() <= b.len(),
        b.take(a.len() as int) == a,
        converted_lines(a, cfg) is Err,
    ensures
        converted_lines(b, cfg) == converted_lines(a, cfg),
    decreases b.len() - a.len(),
{
    if b.len() == a.len() {
        assert(b =~= a);
    } else {
        assert(b.drop_last().take(a.len() as int) =~= a);
        lemma_error_kept(a, b.drop_last(), cfg);
    }
}

/// A failure on the lines ended by the first `k` characters fails the whole text.
proof fn lemma_text_error(s: Seq<char>, k: int, cfg: ConvertConfigView)
    requires
        0 <= k <= s.len(),
        converted_lines(terminated_lines(s.take(k)), cfg) is Err,
    ensures
        converted_text(s, cfg) == converted_lines(terminated_lines(s.take(k)), cfg),
{
    lemma_terminated_prefix(s, k, s.len() as int);
    assert(s.take(s.len() as int) =~= s);
    let t = terminated_lines(s);
    let tail = split_newlines(s).last();
    let rest: Seq<Seq<char>> = if tail.len() == 0 { Seq::empty() } else { seq![tail] };
    assert((t + rest).take(t.len() as int) =~= t);
    let a = terminated_lines(s.take(k));
    assert((t + rest).take(a.len() as int) =~= t.take(a.len() as int));
    lemma_error_kept(a, lines_of(s), cfg);
}

/// Converts every line of `cfg_str` that holds a vmess link and keeps the others.
/// A link that cannot be read fails the whole call.
pub fn convert_cfg_str(cfg_str: &str, convert_cfg: &ConvertConfig) -> (r: Result<String, ConvertError>)
    ensures
        match r {
            Ok(out) => converted_text(cfg_str@, convert_cfg@) == Ok::<Seq<char>, ConvertError>(out@),
            Err(e) => converted_text(cfg_str@, convert_cfg@) == Err::<Seq<char>, ConvertError>(e),
        },
{
    let chars = chars_of(cfg_str);
    let n = chars.len();
    let mut out = String::new();
    let mut start: usize = 0;
    let mut i: usize = 0;
    proof {
        assert(chars@.take(0) =~= Seq::<char>::empty());
        assert(terminated_lines(chars@.take(0)) =~= Seq::<Seq<char>>::empty());
    }
    while i < n
        invariant
            chars@ == cfg_str@,
            n == chars.len(),
            start <= i <= n,
            split_newlines(chars@.take(i as int)).last() == chars@.subrange(start as int, i as int),
            forall|k: int| start <= k < i ==> chars@[k] != '\n',
            converted_lines(terminated_lines(chars@.take(i as int)), convert_cfg@)
                == Ok::<Seq<char>, ConvertError>(out@),
        decreases n - i,
    {
        let ghost prefix = chars@.take(i as int);
        let ghost next = chars@.take(i + 1);
        proof {
            lemma_split_nonempty(prefix);
            assert(next.drop_last() =~= prefix);
            lemma_terminated_step(next);
        }
        let ghost p = split_newlines(prefix);
        if chars[i] == '\n' {
            let end = if i > start && chars[i - 1] == '\r' { i - 1 } else { i };
            proof {
                if end < i {
                    assert(chars@.subrange(start as int, i as int).drop_last() =~= chars@.subrange(start as int, end as int));
                }
                assert(strip_cr(p.last()) == chars@.subrange(start as int, end as int));
                assert(p.last().push('\n') =~= chars@.subrange(start as int, i + 1));
                assert(chars@.subrange(start as int, i + 1).drop_last() =~= chars@.subrange(start as int, i as int));
                assert(terminated_lines(next).drop_last() =~= terminated_lines(prefix));
            }
            let piece = match convert_line(cfg_str, &chars, start, end, i + 1, convert_cfg) {
                Ok(piece) => piece,
                Err(e) => {
                    proof {
                        lemma_text_error(chars@, i + 1, convert_cfg@);
                    }
                    return Err(e);
                },
            };
            push(&mut out, piece.as_str());
            start = i + 1;
            proof {
                assert(chars@.subrange(start as int, i + 1) =~= Seq::<char>::empty());
            }
        } else {
            proof {
                assert(split_newlines(next) == p.update(p.len() - 1, p.last().push(chars@[i as int])));
                assert(chars@.subrange(start as int, i + 1) =~= chars@.subrange(start as int, i as int).push(chars@[i as int]));
            }
        }
        i = i + 1;
    }
    proof {
        assert(chars@.take(n as int) =~= chars@);
    }
    let ghost done = terminated_lines(chars@);
    if start < n {
        proof {
            let last = chars@.subrange(start as int, n as int);
            assert(last.last() == chars@[n - 1]);
            assert(lines_of(chars@) =~= done.push(last));
            assert(done.push(last).drop_last() =~= done);
        }
        let piece = convert_line(cfg_str, &chars, start, n, n, convert_cfg)?;
        push(&mut out, piece.as_str());
    } else {
        proof {
            assert(lines_of(chars@) =~= done);
        }
    }
    Ok(out)
}

/// A link whose descriptor decodes converts to `vmess://` followed by the
/// URL-safe base64 of the Quantumult clause of that descriptor, and that clause
/// begins with the clause up to `certificate=1`.
pub proof fn lemma_round_trip_shape(ins: Seq<char>, cfg: ConvertConfigView)
    requires
        ins.len() >= 8,
        descriptor_of_uri(ins) is Ok,
    ensures
        ({
            let c = descriptor_of_uri(ins)->Ok_0;
            let q = quan_clause(c, cfg);
            let b = base_clause(c, cfg);
            &&& converted_uri(ins, cfg) == Ok::<Seq<char>, ConvertError>("vmess://"@ + url_safe_base64_of(encode_utf8(q)))
            &&& b.len() <= q.len()
            &&& q.take(b.len() as int) == b
        }),
{
    let c = descriptor_of_uri(ins)->Ok_0;
    let q = quan_clause(c, cfg);
    let b = base_clause(c, cfg);
    assert(q.take(b.len() as int) =~= b);
}

/// A line whose text holds no vmess prefix is carried through exactly,
/// terminator included.
pub proof fn lemma_passthrough_line(lines: Seq<Seq<char>>, line: Seq<char>, cfg: ConvertConfigView)
    requires
        !has_marker(line_content(line)),
    ensures
        converted_lines(lines.push(line), cfg) == match converted_lines(lines, cfg) {
            Ok(prev) => Ok::<Seq<char>, ConvertError>(prev + line),
            Err(e) => Err::<Seq<char>, ConvertError>(e),
        },
{
    assert(lines.push(line).drop_last() =~= lines);
}

/// The lines written one after another.
pub open spec fn joined(lines: Seq<Seq<char>>) -> Seq<char>
    decreases lines.len(),
{
    if lines.len() == 0 {
        Seq::empty()
    } else {
        joined(lines.drop_last()) + lines.last()
    }
}

/// Lines whose text holds no vmess prefix all come out as they are: the result
/// is those lines joined.
pub proof fn lemma_passthrough_lines(lines: Seq<Seq<char>>, cfg: ConvertConfigView)
    requires
        forall|i: int| 0 <= i < lines.len() ==> !has_marker(line_content(#[trigger] lines[i])),
    ensures
        converted_lines(lines, cfg) == Ok::<Seq<char>, ConvertError>(joined(lines)),
    decreases lines.len(),
{
    if lines.len() > 0 {
        let front = lines.drop_last();
        assert forall|i: int| 0 <= i < front.len() implies !has_marker(line_content(#[trigger] front[i])) by {
            assert(front[i] == lines[i]);
        }
        lemma_passthrough_lines(front, cfg);
        assert(!has_marker(line_content(lines[lines.len() - 1])));
        assert(front.push(lines.last()) =~= lines);
        lemma_passthrough_line(front, lines.last(), cfg);
    }
}

proof fn lemma_split_joined(s: Seq<char>)
    ensures
        joined(terminated_lines(s)) + split_newlines(s).last() == s,
    decreases s.len(),
{
    if s.len() == 0 {
        assert(terminated_lines(s) =~= Seq::<Seq<char>>::empty());
        assert(s =~= Seq::<char>::empty());
    } else {
        let t = s.drop_last();
        lemma_split_joined(t);
        lemma_split_nonempty(t);
        lemma_terminated_step(s);
        let p = split_newlines(t);
        let jt = joined(terminated_lines(t));
        assert(s =~= t.push(s.last()));
        if s.last() == '\n' {
            let tl = terminated_lines(t).push(p.last().push('\n'));
            assert(tl.drop_last() =~= terminated_lines(t));
            assert(joined(tl) == jt + p.last().push('\n'));
            assert(jt + p.last().push('\n') =~= (jt + p.last()).push('\n'));
            assert(split_newlines(s).last() =~= Seq::<char>::empty());
            assert(joined(tl) + Seq::<char>::empty() =~= joined(tl));
        } else {
            assert(split_newlines(s).last() == p.last().push(s.last()));
            assert(jt + p.last().push(s.last()) =~= (jt + p.last()).push(s.last()));
        }
    }
}

/// The lines of a text, joined, give back the text.
pub proof fn lemma_lines_joined(s: Seq<char>)
    ensures
        joined(lines_of(s)) == s,
{
    lemma_split_joined(s);
    let t = terminated_lines(s);
    let tail = split_newlines(s).last();
    if tail.len() == 0 {
        assert(lines_of(s) =~= t);
        assert(joined(t) + tail =~= joined(t));
    } else {
        assert(lines_of(s) =~= t.push(tail));
        assert(t.push(tail).drop_last() =~= t);
    }
}

/// A text in which no line's text holds the vmess prefix comes back unchanged.
pub proof fn lemma_passthrough_all(s: Seq<char>, cfg: ConvertConfigView)
    requires
        forall|i: int| 0 <= i < lines_of(s).len() ==> !has_marker(line_content(#[trigger] lines_of(s)[i])),
    ensures
        converted_text(s, cfg) == Ok::<Seq<char>, ConvertError>(s),
{
    lemma_passthrough_lines(lines_of(s), cfg);
    lemma_lines_joined(s);
}

proof fn lemma_marker_within(a: Seq<char>, o: int, x: Seq<char>)
    requires
        0 <= o,
        o + x.len() <= a.len(),
        a.subrange(o, o + x.len()) == x,
        has_marker(x),
    ensures
        has_marker(a),
{
    let i = choose|i: int| 0 <= i && i + 8 <= x.len() && #[trigger] x.subrange(i, i + 8) == marker();
    assert(a.subrange(o + i, o + i + 8) =~= x.subrange(i, i + 8));
}

proof fn lemma_marker_in_joined(lines: Seq<Seq<char>>, k: int)
    requires
        0 <= k < lines.len(),
        has_marker(line_content(lines[k])),
    ensures
        has_marker(joined(lines)),
    decreases lines.len(),
{
    let front = lines.drop_last();
    let j = joined(lines);
    if k == lines.len() - 1 {
        let x = lines.last();
        let c = line_content(x);
        assert(x.subrange(0, c.len() as int) =~= c);
        lemma_marker_within(x, 0, c);
        assert(j.subrange(joined(front).len() as int, j.len() as int) =~= x);
        lemma_marker_within(j, joined(front).len() as int, x);
    } else {
        assert(front[k] == lines[k]);
        lemma_marker_in_joined(front, k);
        assert(j.subrange(0, joined(front).len() as int) =~= joined(front));
        lemma_marker_within(j, 0, joined(front));
    }
}

/// A text that holds no vmess prefix anywhere comes back unchanged, every
/// terminator included.
pub proof fn lemma_passthrough_text(s: Seq<char>, cfg: ConvertConfigView)
    requires
        !has_marker(s),
    ensures
        converted_text(s, cfg) == Ok::<Seq<char>, ConvertError>(s),
{
    lemma_lines_joined(s);
    assert forall|i: int| 0 <= i < lines_of(s).len() implies !has_marker(line_content(#[trigger] lines_of(s)[i])) by {
        if has_marker(line_content(lines_of(s)[i])) {
            lemma_marker_in_joined(lines_of(s), i);
        }
    }
    lemma_passthrough_all(s, cfg);
}

} // verus!
