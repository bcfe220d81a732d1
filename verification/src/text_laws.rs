//! Properties of the line functions: dedenting undoes indenting, and dedenting twice changes
//! nothing more than dedenting once.
use vstd::prelude::*;
use crate::util::{
    dedent_by_seq, dedent_lines, dedent_seq, ends_with_newline, indent_by_seq, indent_lines,
    leading_ws, min_leading_ws, min_ws_of_lines, spaces, split_newlines, strip_cr, text_lines,
    white_space,
};

verus! {

/// Lines joined by line feeds, with no line feed after the last one.
pub open spec fn join_lines(ls: Seq<Seq<char>>) -> Seq<char>
    decreases ls.len(),
{
    if ls.len() == 0 {
        seq![]
    } else if ls.len() == 1 {
        ls[0]
    } else {
        join_lines(ls.drop_last()) + seq!['\n'] + ls.last()
    }
}

/// Lines each followed by a line feed.
pub open spec fn join_ended(ls: Seq<Seq<char>>) -> Seq<char>
    decreases ls.len(),
{
    if ls.len() == 0 {
        seq![]
    } else {
        join_ended(ls.drop_last()) + ls.last() + seq!['\n']
    }
}

/// Whether `l` holds no line feed.
pub open spec fn no_lf(l: Seq<char>) -> bool {
    forall|i: int| 0 <= i < l.len() ==> l[i] != '\n'
}

/// Whether `s` holds no carriage return.
pub open spec fn no_cr(s: Seq<char>) -> bool {
    forall|i: int| 0 <= i < s.len() ==> s[i] != '\r'
}

/// A line as indenting writes it: the prefix in front where the line is not empty and is not
/// the first one kept as it is.
pub open spec fn indented_line(ls: Seq<Seq<char>>, i: int, prefix: Seq<char>, skip_first: bool) -> Seq<
    char,
> {
    (if (i > 0 || !skip_first) && ls[i].len() > 0 {
        prefix
    } else {
        seq![]
    }) + ls[i]
}

/// All lines as indenting writes them.
pub open spec fn indented_lines(ls: Seq<Seq<char>>, prefix: Seq<char>, skip_first: bool) -> Seq<
    Seq<char>,
> {
    Seq::new(ls.len(), |i: int| indented_line(ls, i, prefix, skip_first))
}

proof fn lemma_split_len(s: Seq<char>)
    ensures
        split_newlines(s).len() >= 1,
        s.len() > 0 && s.last() == '\n' ==> split_newlines(s).len() >= 2 && split_newlines(
            s,
        ).last().len() == 0,
        s.len() > 0 && s.last() != '\n' ==> split_newlines(s).last().len() > 0
            && split_newlines(s).last().last() == s.last(),
    decreases s.len(),
{
    if s.len() > 0 {
        lemma_split_len(s.drop_last());
    }
}

/// Splitting after a text without line feeds extends the last piece.
proof fn lemma_split_append(x: Seq<char>, t: Seq<char>)
    requires
        no_lf(t),
    ensures
        split_newlines(x + t) == split_newlines(x).update(
            split_newlines(x).len() - 1,
            split_newlines(x).last() + t,
        ),
    decreases t.len(),
{
    lemma_split_len(x);
    let p = split_newlines(x);
    if t.len() == 0 {
        assert(x + t =~= x);
        assert(p.update(p.len() - 1, p.last() + t) =~= p);
    } else {
        let t1 = t.drop_last();
        lemma_split_append(x, t1);
        assert((x + t).drop_last() =~= x + t1);
        assert((x + t).last() == t.last());
        let r = split_newlines(x + t1);
        assert(r.last() == p.last() + t1);
        assert(r.last().push(t.last()) =~= p.last() + t);
        assert(r.update(r.len() - 1, r.last().push(t.last())) =~= p.update(
            p.len() - 1,
            p.last() + t,
        ));
    }
}

/// Splitting joined lines without line feeds gives back the lines.
proof fn lemma_split_join(ls: Seq<Seq<char>>)
    requires
        ls.len() >= 1,
        forall|i: int| 0 <= i < ls.len() ==> no_lf(#[trigger] ls[i]),
    ensures
        split_newlines(join_lines(ls)) == ls,
    decreases ls.len(),
{
    if ls.len() == 1 {
        lemma_split_append(seq![], ls[0]);
        assert(Seq::<char>::empty() + ls[0] =~= ls[0]);
        assert(split_newlines(Seq::<char>::empty()).update(0, seq![] + ls[0]) =~= ls);
    } else {
        let init = ls.drop_last();
        lemma_split_join(init);
        let x = join_lines(init) + seq!['\n'];
        assert(x.drop_last() =~= join_lines(init));
        assert(split_newlines(x) == init.push(seq![]));
        lemma_split_append(x, ls.last());
        assert(x + ls.last() =~= join_lines(ls));
        assert(init.push(seq![]).update(init.len() as int, seq![] + ls.last()) =~= ls);
    }
}

/// Joining lines with the last one extended extends the joined text.
proof fn lemma_join_extend(r: Seq<Seq<char>>, t: Seq<char>)
    requires
        r.len() >= 1,
    ensures
        join_lines(r.update(r.len() - 1, r.last() + t)) == join_lines(r) + t,
{
    let u = r.update(r.len() - 1, r.last() + t);
    if r.len() == 1 {
        assert(u[0] == r[0] + t);
    } else {
        assert(u.drop_last() =~= r.drop_last());
        assert(join_lines(u) =~= join_lines(r) + t);
    }
}

/// Joining the pieces of a text gives back the text.
proof fn lemma_join_split(s: Seq<char>)
    ensures
        join_lines(split_newlines(s)) == s,
    decreases s.len(),
{
    if s.len() == 0 {
        assert(join_lines(seq![seq![]]) == Seq::<char>::empty());
        assert(s =~= Seq::<char>::empty());
    } else {
        let r = split_newlines(s.drop_last());
        lemma_join_split(s.drop_last());
        lemma_split_len(s.drop_last());
        if s.last() == '\n' {
            assert(r.push(seq![]).drop_last() =~= r);
            assert(join_lines(r.push(seq![])) =~= join_lines(r) + seq!['\n'] + seq![]);
            assert(s =~= s.drop_last() + seq!['\n']);
        } else {
            lemma_join_extend(r, seq![s.last()]);
            assert(r.last().push(s.last()) =~= r.last() + seq![s.last()]);
            assert(s =~= s.drop_last() + seq![s.last()]);
        }
    }
}

/// The pieces of a text hold no line feed, and no carriage return where the text holds none.
proof fn lemma_split_chars(s: Seq<char>)
    ensures
        forall|i: int| 0 <= i < split_newlines(s).len() ==> no_lf(#[trigger] split_newlines(s)[i]),
        no_cr(s) ==> forall|i: int|
            0 <= i < split_newlines(s).len() ==> no_cr(#[trigger] split_newlines(s)[i]),
    decreases s.len(),
{
    if s.len() > 0 {
        lemma_split_chars(s.drop_last());
        lemma_split_len(s.drop_last());
        if no_cr(s) {
            assert(no_cr(s.drop_last()));
        }
    }
}

/// Without carriage returns, a text is its lines joined, and a final line feed where it has
/// one; each line holds no line feed or carriage return.
proof fn lemma_text_lines(s: Seq<char>)
    requires
        no_cr(s),
    ensures
        s == join_lines(text_lines(s)) + (if ends_with_newline(s) {
            seq!['\n']
        } else {
            seq![]
        }),
        forall|i: int| 0 <= i < text_lines(s).len() ==> no_lf(#[trigger] text_lines(s)[i]),
        forall|i: int| 0 <= i < text_lines(s).len() ==> no_cr(#[trigger] text_lines(s)[i]),
        s.len() > 0 <==> text_lines(s).len() > 0,
        s.len() > 0 && !ends_with_newline(s) ==> text_lines(s).last().len() > 0
            && text_lines(s).last().last() == s.last(),
{
    let p = split_newlines(s);
    lemma_split_len(s);
    lemma_split_chars(s);
    lemma_join_split(s);
    let tl = text_lines(s);
    assert forall|i: int| 0 <= i < tl.len() implies tl[i] == p[i] by {
        assert(no_cr(p[i]));
        if p[i].len() > 0 {
            assert(p[i].last() != '\r');
        }
    }
    if s.len() == 0 {
        assert(tl.len() == 0);
    } else if s.last() == '\n' {
        assert(tl =~= p.drop_last());
        assert(join_lines(p) == join_lines(p.drop_last()) + seq!['\n'] + p.last());
        assert(p.last() =~= Seq::<char>::empty());
        assert(join_lines(p) =~= join_lines(tl) + seq!['\n']);
    } else {
        assert(tl =~= p);
    }
}

/// Indenting writes the indented lines joined.
proof fn lemma_indent_join(ls: Seq<Seq<char>>, prefix: Seq<char>, skip_first: bool)
    ensures
        indent_lines(ls, prefix, skip_first) == join_lines(indented_lines(ls, prefix, skip_first)),
    decreases ls.len(),
{
    if ls.len() > 0 {
        let init = ls.drop_last();
        lemma_indent_join(init, prefix, skip_first);
        let il = indented_lines(ls, prefix, skip_first);
        assert(il.drop_last() =~= indented_lines(init, prefix, skip_first)) by {
            assert forall|i: int| 0 <= i < init.len() implies il.drop_last()[i]
                == indented_lines(init, prefix, skip_first)[i] by {
                assert(init[i] == ls[i]);
            }
        }
        if ls.len() == 1 {
            assert(indent_lines(init, prefix, skip_first) == Seq::<char>::empty());
            assert(indent_lines(ls, prefix, skip_first) =~= join_lines(il));
        } else {
            assert(il.last() == indented_line(ls, ls.len() - 1, prefix, skip_first));
            assert(indent_lines(ls, prefix, skip_first) =~= join_lines(il));
        }
    }
}

/// Joined lines where each is followed by a line feed are the lines joined and one more line
/// feed.
proof fn lemma_ended_join(ls: Seq<Seq<char>>)
    requires
        ls.len() >= 1,
    ensures
        join_ended(ls) == join_lines(ls) + seq!['\n'],
    decreases ls.len(),
{
    if ls.len() == 1 {
        assert(join_ended(ls.drop_last()) == Seq::<char>::empty());
        assert(join_ended(ls) =~= join_lines(ls) + seq!['\n']);
    } else {
        lemma_ended_join(ls.drop_last());
        assert(join_ended(ls) =~= join_lines(ls) + seq!['\n']);
    }
}

/// Dedenting the indented lines by the same number of spaces gives back each line, followed by
/// a line feed.
proof fn lemma_dedent_indented(ls: Seq<Seq<char>>, n: nat, skip_first: bool, k: int)
    requires
        0 <= k <= ls.len(),
    ensures
        dedent_lines(indented_lines(ls, spaces(n), skip_first).take(k), n, skip_first)
            == join_ended(ls.take(k)),
    decreases k,
{
    let il = indented_lines(ls, spaces(n), skip_first);
    if k > 0 {
        lemma_dedent_indented(ls, n, skip_first, k - 1);
        assert(il.take(k).drop_last() =~= il.take(k - 1));
        assert(ls.take(k).drop_last() =~= ls.take(k - 1));
        let l = ls[k - 1];
        let m = il[k - 1];
        assert(il.take(k).last() == m);
        assert(ls.take(k).last() == l);
        if k == 1 && skip_first {
            assert(m =~= l);
        } else if l.len() == 0 {
            assert(m =~= l);
        } else {
            assert(m == spaces(n) + l);
            assert(m.skip(n as int) =~= l);
        }
    } else {
        assert(il.take(0).len() == 0);
        assert(ls.take(0).len() == 0);
    }
}

/// Dedenting by `n` what indenting by `n` wrote, with the same choice for the first line, gives
/// back the text, where the text holds no carriage return.
pub proof fn dedent_undoes_indent(s: Seq<char>, n: nat, skip_first: bool)
    requires
        no_cr(s),
    ensures
        dedent_by_seq(indent_by_seq(s, n, skip_first), n, skip_first) == s,
{
    lemma_text_lines(s);
    let ls = text_lines(s);
    let il = indented_lines(ls, spaces(n), skip_first);
    let nl: Seq<char> = if ends_with_newline(s) {
        seq!['\n']
    } else {
        seq![]
    };
    let t = indent_by_seq(s, n, skip_first);
    lemma_indent_join(ls, spaces(n), skip_first);
    assert(t == join_lines(il) + nl);
    if s.len() == 0 {
        assert(ls.len() == 0);
        assert(join_lines(il) == Seq::<char>::empty());
        assert(t =~= Seq::<char>::empty());
        assert(text_lines(t).len() == 0);
        assert(dedent_lines(text_lines(t), n, skip_first) == Seq::<char>::empty());
        assert(s =~= Seq::<char>::empty());
    } else {
        // The lines of the indented text are the indented lines.
        assert forall|i: int| 0 <= i < il.len() implies no_lf(#[trigger] il[i]) && no_cr(il[i]) by {
            assert(no_lf(ls[i]) && no_cr(ls[i]));
            let pre: Seq<char> = if (i > 0 || !skip_first) && ls[i].len() > 0 {
                spaces(n)
            } else {
                seq![]
            };
            assert(il[i] == pre + ls[i]);
            assert forall|j: int| 0 <= j < il[i].len() implies il[i][j] != '\n' && il[i][j]
                != '\r' by {
                if j < pre.len() {
                    assert(il[i][j] == pre[j]);
                } else {
                    assert(il[i][j] == ls[i][j - pre.len()]);
                }
            }
        }
        lemma_split_join(il);
        let last = il.last();
        assert(last == indented_line(ls, ls.len() - 1, spaces(n), skip_first));
        if ends_with_newline(s) {
            let q = join_lines(il) + seq!['\n'];
            assert(q.drop_last() =~= join_lines(il));
            assert(split_newlines(q) == il.push(seq![]));
            assert(text_lines(t) =~= il) by {
                assert forall|i: int| 0 <= i < il.len() implies strip_cr(il[i]) == il[i] by {
                    if il[i].len() > 0 {
                        assert(il[i].last() != '\r');
                    }
                }
            }
            assert(ends_with_newline(t));
        } else {
            assert(t =~= join_lines(il));
            assert(ls.last().len() > 0);
            assert(last.len() > 0 && last.last() == ls.last().last());
            assert(text_lines(t) =~= il) by {
                assert forall|i: int| 0 <= i < il.len() implies strip_cr(il[i]) == il[i] by {
                    if il[i].len() > 0 {
                        assert(il[i].last() != '\r');
                    }
                }
            }
            if il.len() == 1 {
                assert(join_lines(il) == last);
            } else {
                assert(join_lines(il) == join_lines(il.drop_last()) + seq!['\n'] + last);
            }
            assert(t.last() == s.last());
            assert(!ends_with_newline(t));
        }
        lemma_dedent_indented(ls, n, skip_first, ls.len() as int);
        assert(il.take(il.len() as int) =~= il);
        assert(ls.take(ls.len() as int) =~= ls);
        lemma_ended_join(ls);
        let d = dedent_lines(text_lines(t), n, skip_first);
        assert(d == join_lines(ls) + seq!['\n']);
        if !ends_with_newline(s) {
            assert(d.drop_last() =~= join_lines(ls));
            assert(s =~= join_lines(ls));
        } else {
            assert(s =~= join_lines(ls) + seq!['\n']);
        }
    }
}

/// Whether line `i` takes part in dedenting: it is not empty, and it is not the first one when
/// `skip_first`.
pub open spec fn takes_part(ls: Seq<Seq<char>>, i: int, skip_first: bool) -> bool {
    ls[i].len() > 0 && !(i == 0 && skip_first)
}

/// Line `i` as dedenting by `n` writes it.
pub open spec fn dedented_line(ls: Seq<Seq<char>>, i: int, n: nat, skip_first: bool) -> Seq<char> {
    if i == 0 && skip_first {
        ls[i]
    } else if ls[i].len() == 0 {
        seq![]
    } else if n < ls[i].len() {
        ls[i].skip(n as int)
    } else {
        seq![]
    }
}

/// All lines as dedenting by `n` writes them.
pub open spec fn dedented_lines(ls: Seq<Seq<char>>, n: nat, skip_first: bool) -> Seq<Seq<char>> {
    Seq::new(ls.len(), |i: int| dedented_line(ls, i, n, skip_first))
}

/// The leading whitespace of a line: its length, its characters, and the one after it.
proof fn lemma_leading_ws(l: Seq<char>)
    ensures
        leading_ws(l) <= l.len(),
        leading_ws(l) < l.len() ==> !white_space(l[leading_ws(l) as int]),
    decreases l.len(),
{
    if l.len() > 0 && white_space(l[0]) {
        lemma_leading_ws(l.drop_first());
        let k = leading_ws(l.drop_first());
        if k < l.drop_first().len() {
            assert(l.drop_first()[k as int] == l[k as int + 1]);
        }
    }
}

/// The smallest leading whitespace is at most that of every line that takes part.
proof fn lemma_min_le(ls: Seq<Seq<char>>, skip_first: bool, i: int)
    requires
        0 <= i < ls.len(),
        takes_part(ls, i, skip_first),
    ensures
        min_ws_of_lines(ls, skip_first) <= leading_ws(ls[i]),
    decreases ls.len(),
{
    let m = min_ws_of_lines(ls.drop_last(), skip_first);
    if i < ls.len() - 1 {
        assert(ls.drop_last()[i] == ls[i]);
        lemma_min_le(ls.drop_last(), skip_first, i);
    }
}

/// The smallest leading whitespace, where it is below `usize::MAX`, is that of a line that takes
/// part.
proof fn lemma_min_attained(ls: Seq<Seq<char>>, skip_first: bool)
    requires
        min_ws_of_lines(ls, skip_first) < usize::MAX,
    ensures
        exists|i: int| 0 <= i < ls.len() && takes_part(ls, i, skip_first) && leading_ws(ls[i])
            == min_ws_of_lines(ls, skip_first),
    decreases ls.len(),
{
    let init = ls.drop_last();
    let m = min_ws_of_lines(init, skip_first);
    let l = ls.last();
    if min_ws_of_lines(ls, skip_first) == m {
        if !((ls.len() == 1 && skip_first) || l.len() == 0) && leading_ws(l) == m {
            assert(takes_part(ls, ls.len() - 1, skip_first));
        } else {
            lemma_min_attained(init, skip_first);
            let i = choose|i: int| 0 <= i < init.len() && takes_part(init, i, skip_first)
                && leading_ws(init[i]) == m;
            assert(init[i] == ls[i]);
            assert(takes_part(ls, i, skip_first));
        }
    } else {
        assert(takes_part(ls, ls.len() - 1, skip_first));
    }
}

/// Dedenting the first `k` lines writes each dedented line followed by a line feed.
proof fn lemma_dedent_dl(ls: Seq<Seq<char>>, n: nat, skip_first: bool, k: int)
    requires
        0 <= k <= ls.len(),
    ensures
        dedent_lines(ls.take(k), n, skip_first) == join_ended(
            dedented_lines(ls, n, skip_first).take(k),
        ),
    decreases k,
{
    let dl = dedented_lines(ls, n, skip_first);
    if k > 0 {
        lemma_dedent_dl(ls, n, skip_first, k - 1);
        assert(dl.take(k).drop_last() =~= dl.take(k - 1));
        assert(ls.take(k).drop_last() =~= ls.take(k - 1));
        assert(dl.take(k).last() == dl[k - 1]);
        assert(ls.take(k).last() == ls[k - 1]);
    } else {
        assert(dl.take(0).len() == 0);
        assert(ls.take(0).len() == 0);
    }
}

/// A line is no longer than the joined lines.
proof fn lemma_join_len(ls: Seq<Seq<char>>, i: int)
    requires
        0 <= i < ls.len(),
    ensures
        ls[i].len() <= join_lines(ls).len(),
    decreases ls.len(),
{
    if ls.len() > 1 && i < ls.len() - 1 {
        assert(ls.drop_last()[i] == ls[i]);
        lemma_join_len(ls.drop_last(), i);
    }
}

/// The lines of joined lines without line feeds or carriage returns, followed by a line feed
/// or ending in a non-empty line, are those lines.
proof fn lemma_lines_of_join(ls: Seq<Seq<char>>, ended: bool)
    requires
        ls.len() >= 1,
        forall|i: int| 0 <= i < ls.len() ==> no_lf(#[trigger] ls[i]) && no_cr(ls[i]),
        ended || ls.last().len() > 0,
    ensures
        text_lines(join_lines(ls) + (if ended {
            seq!['\n']
        } else {
            seq![]
        })) == ls,
        ends_with_newline(join_lines(ls) + (if ended {
            seq!['\n']
        } else {
            seq![]
        })) == ended,
{
    let nl: Seq<char> = if ended {
        seq!['\n']
    } else {
        seq![]
    };
    let t = join_lines(ls) + nl;
    lemma_split_join(ls);
    assert forall|i: int| 0 <= i < ls.len() implies strip_cr(ls[i]) == ls[i] by {
        if ls[i].len() > 0 {
            assert(ls[i].last() != '\r');
        }
    }
    if ended {
        assert(t.drop_last() =~= join_lines(ls));
        assert(split_newlines(t) == ls.push(seq![]));
        assert(text_lines(t) =~= ls);
    } else {
        assert(t =~= join_lines(ls));
        assert(text_lines(t) =~= ls);
        if ls.len() == 1 {
            assert(join_lines(ls) == ls.last());
        } else {
            assert(join_lines(ls) == join_lines(ls.drop_last()) + seq!['\n'] + ls.last());
        }
        assert(t.last() == ls.last().last());
        assert(ls.last().last() != '\n');
    }
}

/// The dedented lines of a text hold no line feed or carriage return, and where the text does
/// not end with a line feed and every line that takes part is indented by at least `n` and
/// holds more, the last one is not empty.
proof fn lemma_dedented_chars(s: Seq<char>, n: nat, skip_first: bool)
    requires
        no_cr(s),
        s.len() > 0,
    ensures
        forall|i: int| 0 <= i < dedented_lines(text_lines(s), n, skip_first).len() ==> no_lf(
            #[trigger] dedented_lines(text_lines(s), n, skip_first)[i],
        ) && no_cr(dedented_lines(text_lines(s), n, skip_first)[i]),
        dedented_lines(text_lines(s), n, skip_first).len() == text_lines(s).len(),
{
    lemma_text_lines(s);
    let ls = text_lines(s);
    let dl = dedented_lines(ls, n, skip_first);
    assert forall|i: int| 0 <= i < dl.len() implies no_lf(#[trigger] dl[i]) && no_cr(dl[i]) by {
        assert(no_lf(ls[i]) && no_cr(ls[i]));
        if !(i == 0 && skip_first) && ls[i].len() > 0 && n < ls[i].len() {
            assert forall|j: int| 0 <= j < dl[i].len() implies dl[i][j] != '\n' && dl[i][j]
                != '\r' by {
                assert(dl[i][j] == ls[i][j + n]);
            }
        }
    }
}

/// Dedenting by the smallest leading whitespace twice changes nothing more than dedenting once,
/// where the text holds no carriage return, fits in memory, and every line that takes part in
/// dedenting holds a character that is not whitespace.
pub proof fn dedent_idempotent(s: Seq<char>, skip_first: bool)
    requires
        no_cr(s),
        s.len() <= usize::MAX,
        forall|i: int|
            0 <= i < text_lines(s).len() && takes_part(text_lines(s), i, skip_first) ==> leading_ws(
                #[trigger] text_lines(s)[i],
            ) < text_lines(s)[i].len(),
    ensures
        dedent_seq(dedent_seq(s, skip_first), skip_first) == dedent_seq(s, skip_first),
{
    let m = min_leading_ws(s, skip_first);
    if m != 0 {
        lemma_text_lines(s);
        let ls = text_lines(s);
        assert(m == min_ws_of_lines(ls, skip_first));
        let dl = dedented_lines(ls, m, skip_first);
        lemma_dedented_chars(s, m, skip_first);
        lemma_dedent_dl(ls, m, skip_first, ls.len() as int);
        assert(ls.take(ls.len() as int) =~= ls);
        assert(dl.take(dl.len() as int) =~= dl);
        lemma_ended_join(dl);
        let d = dedent_by_seq(s, m, skip_first);
        let e = ends_with_newline(s);
        let nl: Seq<char> = if e {
            seq!['\n']
        } else {
            seq![]
        };
        assert(dedent_lines(ls, m, skip_first) == join_lines(dl) + seq!['\n']);
        if e {
            assert(d == join_lines(dl) + nl);
        } else {
            assert((join_lines(dl) + seq!['\n']).drop_last() =~= join_lines(dl));
            assert(d =~= join_lines(dl) + nl);
        }
        if m < usize::MAX {
            lemma_min_attained(ls, skip_first);
            let i = choose|i: int| 0 <= i < ls.len() && takes_part(ls, i, skip_first)
                && leading_ws(ls[i]) == m;
            lemma_leading_ws(ls[i]);
            assert(dl[i] == ls[i].skip(m as int));
            assert(dl[i][0] == ls[i][m as int]);
            assert(leading_ws(dl[i]) == 0);
            assert(takes_part(dl, i, skip_first));
            if !e {
                let k = ls.len() - 1;
                if !(k == 0 && skip_first) {
                    lemma_min_le(ls, skip_first, k);
                    assert(takes_part(ls, k, skip_first));
                    assert(leading_ws(ls[k]) < ls[k].len());
                }
                assert(dl.last() == dl[k]);
                assert(dl.last().len() > 0);
            }
            lemma_lines_of_join(dl, e);
            assert(text_lines(d) == dl);
            lemma_min_le(dl, skip_first, i);
            assert(d.len() > 0) by {
                lemma_join_len(dl, i);
            }
            assert(min_leading_ws(d, skip_first) == 0);
        } else {
            // No line takes part: dedenting leaves every line as it is.
            assert(dl =~= ls) by {
                assert forall|i: int| 0 <= i < ls.len() implies dl[i] == ls[i] by {
                    if takes_part(ls, i, skip_first) {
                        lemma_min_le(ls, skip_first, i);
                        lemma_leading_ws(ls[i]);
                        lemma_join_len(ls, i);
                        assert(false);
                    }
                }
            }
            assert(d == s);
        }
    }
}

} // verus!
