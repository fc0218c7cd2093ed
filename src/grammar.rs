use vstd::prelude::*;

use crate::allow_set::AllowSet;
use crate::allow_set::lemma_to_set_push;
use crate::cidr::{cidr_char, cidr_parsed, cidr_text, parse_cidr, well_rendered, Cidr};

verus! {

// The persisted allow-list file: one `allow <CIDR>;` line per entry. On
// reading, each line has every `;` and every `allow ` taken out and is then
// trimmed of white space; what is left is either empty (the line is ignored)
// or a prefix in standard notation. A single line that is neither rejects
// the whole file.

/// The characters of `s`, in order.
pub fn chars_of(s: &str) -> (r: Vec<char>)
    ensures
        r@ == s@,
{
    let mut r: Vec<char> = Vec::new();
    for ch in it: s.chars()
        invariant
            r@ == it.seq().subrange(0, it.index() as int),
    {
        r.push(ch);
    }
    proof {
        assert(r@ =~= s@);
    }
    r
}

/// White space as `char::is_whitespace` has it: the Unicode `White_Space`
/// property.
pub open spec fn is_space(c: char) -> bool {
    ('\u{9}' <= c && c <= '\u{d}') || c == ' ' || c == '\u{85}' || c == '\u{a0}' || c == '\u{1680}'
        || ('\u{2000}' <= c && c <= '\u{200a}') || c == '\u{2028}' || c == '\u{2029}'
        || c == '\u{202f}' || c == '\u{205f}' || c == '\u{3000}'
}

fn space(c: char) -> (r: bool)
    ensures
        r == is_space(c),
{
    ('\u{9}' <= c && c <= '\u{d}') || c == ' ' || c == '\u{85}' || c == '\u{a0}' || c == '\u{1680}'
        || ('\u{2000}' <= c && c <= '\u{200a}') || c == '\u{2028}' || c == '\u{2029}'
        || c == '\u{202f}' || c == '\u{205f}' || c == '\u{3000}'
}

/// The word that opens an entry line, with the space after it.
pub open spec fn keyword() -> Seq<char> {
    seq!['a', 'l', 'l', 'o', 'w', ' ']
}

/// `s` with every `;` taken out.
pub open spec fn without_semicolons(s: Seq<char>) -> Seq<char>
    decreases s.len(),
{
    if s.len() == 0 {
        s
    } else {
        let rest = without_semicolons(s.drop_last());
        if s.last() == ';' {
            rest
        } else {
            rest.push(s.last())
        }
    }
}

/// `s` with every occurrence of the keyword taken out, scanning from the left.
pub open spec fn without_keyword(s: Seq<char>) -> Seq<char>
    decreases s.len(),
{
    if s.len() == 0 {
        s
    } else if s.len() >= 6 && s.subrange(0, 6) == keyword() {
        without_keyword(s.subrange(6, s.len() as int))
    } else {
        seq![s[0]] + without_keyword(s.drop_first())
    }
}

/// `s` without its leading white space.
pub open spec fn trim_start(s: Seq<char>) -> Seq<char>
    decreases s.len(),
{
    if s.len() > 0 && is_space(s[0]) {
        trim_start(s.drop_first())
    } else {
        s
    }
}

/// `s` without its trailing white space.
pub open spec fn trim_end(s: Seq<char>) -> Seq<char>
    decreases s.len(),
{
    if s.len() > 0 && is_space(s.last()) {
        trim_end(s.drop_last())
    } else {
        s
    }
}

/// What a line of the file holds once `;`, the keyword and the surrounding
/// white space are taken out.
pub open spec fn entry_of(line: Seq<char>) -> Seq<char> {
    trim_end(trim_start(without_keyword(without_semicolons(line))))
}

/// The lines of `s`, split at each `\n`. A text that ends in `\n` has an
/// empty last line, which is ignored like any blank line; a `\r` before the
/// `\n` is white space and trimmed with the rest.
pub open spec fn split_lines(s: Seq<char>) -> Seq<Seq<char>>
    decreases s.len(),
{
    if s.len() == 0 {
        seq![Seq::<char>::empty()]
    } else {
        let p = split_lines(s.drop_last());
        if s.last() == '\n' {
            p.push(Seq::<char>::empty())
        } else {
            p.update(p.len() - 1, p.last().push(s.last()))
        }
    }
}

/// The set that lines `ls` hold, or the index of the first line that is
/// neither blank nor a prefix.
pub open spec fn parse_lines(ls: Seq<Seq<char>>) -> Result<Set<Cidr>, nat>
    decreases ls.len(),
{
    if ls.len() == 0 {
        Ok(Set::empty())
    } else {
        match parse_lines(ls.drop_last()) {
            Err(k) => Err(k),
            Ok(set) => {
                let e = entry_of(ls.last());
                if e.len() == 0 {
                    Ok(set)
                } else {
                    match cidr_parsed(e) {
                        Some(c) => Ok(set.insert(c)),
                        None => Err((ls.len() - 1) as nat),
                    }
                }
            },
        }
    }
}

/// The set that the file text `s` holds, or the index of its first bad line.
pub open spec fn parse_text(s: Seq<char>) -> Result<Set<Cidr>, nat> {
    parse_lines(split_lines(s))
}

pub proof fn lemma_split_lines_len(s: Seq<char>)
    ensures
        split_lines(s).len() >= 1,
    decreases s.len(),
{
    if s.len() > 0 {
        lemma_split_lines_len(s.drop_last());
    }
}

/// Text appended after `s` leaves the lines of `s` before its last one as
/// they are.
pub proof fn lemma_split_lines_extend(s: Seq<char>, t: Seq<char>)
    ensures
        split_lines(s + t).len() >= split_lines(s).len(),
        split_lines(s + t).subrange(0, split_lines(s).len() - 1) == split_lines(s).drop_last(),
    decreases t.len(),
{
    lemma_split_lines_len(s);
    if t.len() == 0 {
        assert(s + t == s);
    } else {
        lemma_split_lines_extend(s, t.drop_last());
        lemma_split_lines_len(s + t.drop_last());
        assert((s + t).drop_last() == s + t.drop_last());
        let n = split_lines(s).len() - 1;
        assert(split_lines(s + t).subrange(0, n) =~= split_lines(s + t.drop_last()).subrange(0, n));
    }
}

/// Once a prefix of the lines is rejected, so are all the lines.
pub proof fn lemma_parse_lines_rejected(ls: Seq<Seq<char>>, k: int)
    requires
        0 <= k <= ls.len(),
        parse_lines(ls.subrange(0, k)) is Err,
    ensures
        parse_lines(ls) == parse_lines(ls.subrange(0, k)),
    decreases ls.len() - k,
{
    if k < ls.len() {
        assert(ls.drop_last().subrange(0, k) == ls.subrange(0, k));
        lemma_parse_lines_rejected(ls.drop_last(), k);
    } else {
        assert(ls.subrange(0, k) == ls);
    }
}

fn drop_semicolons(line: &Vec<char>) -> (r: Vec<char>)
    ensures
        r@ == without_semicolons(line@),
{
    let mut r: Vec<char> = Vec::new();
    for i in 0..line.len()
        invariant
            r@ == without_semicolons(line@.subrange(0, i as int)),
    {
        assert(line@.subrange(0, i + 1).drop_last() == line@.subrange(0, i as int));
        if line[i] != ';' {
            r.push(line[i]);
        }
    }
    assert(line@.subrange(0, line@.len() as int) == line@);
    r
}

fn drop_keyword(s: &Vec<char>) -> (r: Vec<char>)
    ensures
        r@ == without_keyword(s@),
{
    let n = s.len();
    let mut r: Vec<char> = Vec::new();
    let mut i: usize = 0;
    assert(s@.subrange(0, n as int) == s@);
    while i < n
        invariant
            n == s@.len(),
            i <= n,
            r@ + without_keyword(s@.subrange(i as int, n as int)) == without_keyword(s@),
        decreases n - i,
    {
        let ghost rest = s@.subrange(i as int, n as int);
        if 6 <= n - i && s[i] == 'a' && s[i + 1] == 'l' && s[i + 2] == 'l' && s[i + 3] == 'o'
            && s[i + 4] == 'w' && s[i + 5] == ' ' {
            assert(rest.subrange(0, 6) =~= keyword());
            assert(rest.subrange(6, rest.len() as int) =~= s@.subrange(i + 6, n as int));
            i = i + 6;
        } else {
            assert(rest.len() >= 6 ==> rest.subrange(0, 6) != keyword()) by {
                if rest.len() >= 6 && rest.subrange(0, 6) == keyword() {
                    assert(rest.subrange(0, 6)[0] == 'a');
                    assert(rest.subrange(0, 6)[1] == 'l');
                    assert(rest.subrange(0, 6)[2] == 'l');
                    assert(rest.subrange(0, 6)[3] == 'o');
                    assert(rest.subrange(0, 6)[4] == 'w');
                    assert(rest.subrange(0, 6)[5] == ' ');
                }
            }
            assert(rest.drop_first() =~= s@.subrange(i + 1, n as int));
            r.push(s[i]);
            assert(r@ + without_keyword(s@.subrange(i + 1, n as int)) =~= (r@.drop_last() + seq![
                rest[0],
            ]) + without_keyword(rest.drop_first()));
            i = i + 1;
        }
    }
    assert(r@ + without_keyword(s@.subrange(n as int, n as int)) =~= r@);
    r
}

fn trim(s: &Vec<char>) -> (r: Vec<char>)
    ensures
        r@ == trim_end(trim_start(s@)),
{
    let n = s.len();
    let mut a: usize = 0;
    assert(s@.subrange(0, n as int) == s@);
    while a < n && space(s[a])
        invariant
            n == s@.len(),
            a <= n,
            trim_start(s@.subrange(a as int, n as int)) == trim_start(s@),
        decreases n - a,
    {
        assert(s@.subrange(a as int, n as int).drop_first() =~= s@.subrange(a + 1, n as int));
        a = a + 1;
    }
    let mut b: usize = n;
    while b > a && space(s[b - 1])
        invariant
            n == s@.len(),
            a <= b <= n,
            trim_start(s@) == s@.subrange(a as int, n as int),
            trim_end(s@.subrange(a as int, b as int)) == trim_end(trim_start(s@)),
        decreases b - a,
    {
        assert(s@.subrange(a as int, b as int).drop_last() =~= s@.subrange(a as int, b - 1));
        b = b - 1;
    }
    let mut r: Vec<char> = Vec::new();
    for k in a..b
        invariant
            a <= b <= n,
            n == s@.len(),
            r@ == s@.subrange(a as int, k as int),
    {
        r.push(s[k]);
        assert(r@ =~= s@.subrange(a as int, k + 1));
    }
    r
}

/// What `line` holds once `;`, the keyword and the surrounding white space
/// are taken out.
pub fn entry_of_line(line: &Vec<char>) -> (r: Vec<char>)
    ensures
        r@ == entry_of(line@),
{
    let a = drop_semicolons(line);
    let b = drop_keyword(&a);
    trim(&b)
}

/// The first line of a file that is neither blank nor a prefix: its index,
/// counted from 0, and what it held once `;`, the keyword and the
/// surrounding white space were taken out.
pub struct RejectedLine {
    pub index: usize,
    pub entry: Vec<char>,
}

/// Reads the text of an allow-list file: the set it holds, or the first line
/// that rejects the whole file.
pub fn parse_allow_file(content: &str) -> (r: Result<AllowSet, RejectedLine>)
    ensures
        (r is Ok) == (parse_text(content@) is Ok),
        r matches Ok(set) ==> set.wf() && parse_text(content@) == Result::<Set<Cidr>, nat>::Ok(set@),
        r matches Err(e) ==> {
            &&& parse_text(content@) == Result::<Set<Cidr>, nat>::Err(e.index as nat)
            &&& e.entry@ == entry_of(split_lines(content@)[e.index as int])
        },
{
    let chars = chars_of(content);
    let mut set = AllowSet::new();
    let mut line: Vec<char> = Vec::new();
    let mut index: usize = 0;
    let mut i: usize = 0;
    while i < chars.len()
        invariant
            chars@ == content@,
            i <= chars@.len(),
            index <= i,
            set.wf(),
            split_lines(chars@.subrange(0, i as int)).len() == index + 1,
            split_lines(chars@.subrange(0, i as int)).last() == line@,
            parse_lines(split_lines(chars@.subrange(0, i as int)).drop_last()) == Result::<
                Set<Cidr>,
                nat,
            >::Ok(set@),
        decreases chars@.len() - i,
    {
        let ghost pre = chars@.subrange(0, i as int);
        let ghost next = chars@.subrange(0, i + 1);
        assert(next.drop_last() == pre);
        proof {
            lemma_split_lines_len(pre);
        }
        let ch = chars[i];
        if ch == '\n' {
            assert(split_lines(next).drop_last() == split_lines(pre));
            let entry = entry_of_line(&line);
            if entry.len() > 0 {
                match parse_cidr(&entry) {
                    Some(c) => {
                        set.insert(c);
                    },
                    None => {
                        proof {
                            let full = chars@;
                            assert(full == next + full.subrange(i + 1, full.len() as int));
                            lemma_split_lines_extend(next, full.subrange(i + 1, full.len() as int));
                            let k = index + 1;
                            assert(split_lines(full).subrange(0, k) == split_lines(pre));
                            lemma_parse_lines_rejected(split_lines(full), k);
                            assert(split_lines(full)[index as int] == split_lines(pre)[index as int]);
                        }
                        return Err(RejectedLine { index, entry });
                    },
                }
            }
            line = Vec::new();
            index = index + 1;
        } else {
            line.push(ch);
            assert(split_lines(next).drop_last() =~= split_lines(pre).drop_last());
        }
        i = i + 1;
    }
    assert(chars@.subrange(0, i as int) == content@);
    let entry = entry_of_line(&line);
    if entry.len() > 0 {
        match parse_cidr(&entry) {
            Some(c) => {
                set.insert(c);
            },
            None => {
                return Err(RejectedLine { index, entry });
            },
        }
    }
    Ok(set)
}

/// The line written for a prefix, without its newline: `allow <CIDR>;`.
pub open spec fn entry_line(c: Cidr) -> Seq<char> {
    keyword() + cidr_text(c) + seq![';']
}

/// The file text for entries `cs`: one line for each, in order, each ended
/// by a newline.
pub open spec fn render_text(cs: Seq<Cidr>) -> Seq<char>
    decreases cs.len(),
{
    if cs.len() == 0 {
        Seq::empty()
    } else {
        render_text(cs.drop_last()) + entry_line(cs.last()) + seq!['\n']
    }
}

/// Writes the text of an allow-list file for `set`.
pub fn render_allow_file(set: &AllowSet) -> (r: String)
    requires
        set.wf(),
    ensures
        r@ == render_text(set.seq()),
{
    let mut out = String::new();
    let opening = "allow ";
    let closing = ";\n";
    proof {
        reveal_strlit("allow ");
        reveal_strlit(";\n");
        set.lemma_view();
        assert(opening@ =~= keyword());
        assert(closing@ =~= seq![';', '\n']);
        assert(out@ =~= render_text(set.seq().subrange(0, 0)));
    }
    let n = set.entries().len();
    for i in 0..n
        invariant
            set.wf(),
            n == set.seq().len(),
            opening@ == keyword(),
            closing@ == seq![';', '\n'],
            out@ == render_text(set.seq().subrange(0, i as int)),
    {
        proof {
            set.lemma_view();
        }
        out.append(opening);
        out.append(set.text(i).as_str());
        out.append(closing);
        proof {
            let cs = set.seq().subrange(0, i + 1);
            assert(cs.drop_last() == set.seq().subrange(0, i as int));
            assert(out@ =~= render_text(cs));
        }
    }
    proof {
        assert(set.seq().subrange(0, n as int) == set.seq());
    }
    out
}

pub(crate) proof fn lemma_split_lines_no_newline(s: Seq<char>, t: Seq<char>)
    requires
        !t.contains('\n'),
    ensures
        split_lines(s + t) == split_lines(s).update(
            split_lines(s).len() - 1,
            split_lines(s).last() + t,
        ),
    decreases t.len(),
{
    lemma_split_lines_len(s);
    if t.len() == 0 {
        assert(s + t == s);
        assert(split_lines(s).last() + t == split_lines(s).last());
        assert(split_lines(s).update(split_lines(s).len() - 1, split_lines(s).last())
            =~= split_lines(s));
    } else {
        let u = t.drop_last();
        assert(!u.contains('\n')) by {
            if u.contains('\n') {
                let i = choose|i: int| 0 <= i < u.len() && u[i] == '\n';
                assert(t[i] == '\n');
            }
        }
        assert(t.last() != '\n') by {
            if t.last() == '\n' {
                assert(t[t.len() - 1] == '\n');
            }
        }
        lemma_split_lines_no_newline(s, u);
        assert((s + t).drop_last() == s + u);
        assert((split_lines(s).last() + u).push(t.last()) == split_lines(s).last() + t);
        assert(split_lines(s + t) =~= split_lines(s).update(
            split_lines(s).len() - 1,
            split_lines(s).last() + t,
        ));
    }
}

proof fn lemma_without_semicolons_none(s: Seq<char>)
    requires
        forall|i: int| 0 <= i < s.len() ==> s[i] != ';',
    ensures
        without_semicolons(s) == s,
    decreases s.len(),
{
    if s.len() > 0 {
        lemma_without_semicolons_none(s.drop_last());
        assert(s.drop_last().push(s.last()) == s);
    }
}

proof fn lemma_without_keyword_no_space(s: Seq<char>)
    requires
        forall|i: int| 0 <= i < s.len() ==> s[i] != ' ',
    ensures
        without_keyword(s) == s,
    decreases s.len(),
{
    if s.len() > 0 {
        if s.len() >= 6 {
            assert(s.subrange(0, 6)[5] != keyword()[5]);
        }
        lemma_without_keyword_no_space(s.drop_first());
        assert(seq![s[0]] + s.drop_first() == s);
    }
}

/// Reading the line written for a prefix gives back the prefix's notation.
proof fn lemma_entry_of_entry_line(c: Cidr)
    requires
        well_rendered(c),
    ensures
        entry_of(entry_line(c)) == cidr_text(c),
        !entry_line(c).contains('\n'),
{
    let t = cidr_text(c);
    let k = keyword();
    let line = entry_line(c);
    assert(line.drop_last() == k + t);
    assert forall|i: int| 0 <= i < (k + t).len() implies (k + t)[i] != ';' by {
        if i >= 6 {
            assert(cidr_char(t[i - 6]));
        }
    }
    lemma_without_semicolons_none(k + t);
    assert((k + t).subrange(0, 6) == k);
    assert((k + t).subrange(6, (k + t).len() as int) == t);
    assert forall|i: int| 0 <= i < t.len() implies t[i] != ' ' by {
        assert(cidr_char(t[i]));
    }
    lemma_without_keyword_no_space(t);
    assert(cidr_char(t[0]));
    assert(cidr_char(t.last()));
    assert(!line.contains('\n')) by {
        if line.contains('\n') {
            let i = choose|i: int| 0 <= i < line.len() && line[i] == '\n';
            if 6 <= i < line.len() - 1 {
                assert(cidr_char(t[i - 6]));
            }
        }
    }
}

/// The lines of a written file: one per entry, then the empty line after
/// the last newline.
proof fn lemma_split_render(cs: Seq<Cidr>)
    requires
        forall|i: int| 0 <= i < cs.len() ==> well_rendered(#[trigger] cs[i]),
    ensures
        split_lines(render_text(cs)) == cs.map_values(|c: Cidr| entry_line(c)).push(
            Seq::<char>::empty(),
        ),
    decreases cs.len(),
{
    if cs.len() == 0 {
        assert(split_lines(render_text(cs)) =~= cs.map_values(|c: Cidr| entry_line(c)).push(
            Seq::<char>::empty(),
        ));
    } else {
        let p = cs.drop_last();
        let c = cs.last();
        assert(well_rendered(cs[cs.len() - 1]));
        lemma_split_render(p);
        lemma_entry_of_entry_line(c);
        let before = render_text(p);
        lemma_split_lines_no_newline(before, entry_line(c));
        let with_line = before + entry_line(c);
        assert((with_line + seq!['\n']).drop_last() == with_line);
        assert(Seq::<char>::empty() + entry_line(c) == entry_line(c));
        assert(split_lines(render_text(cs)) =~= cs.map_values(|c: Cidr| entry_line(c)).push(
            Seq::<char>::empty(),
        ));
    }
}

proof fn lemma_parse_rendered_lines(cs: Seq<Cidr>)
    requires
        forall|i: int| 0 <= i < cs.len() ==> well_rendered(#[trigger] cs[i]),
    ensures
        parse_lines(cs.map_values(|c: Cidr| entry_line(c))) == Result::<Set<Cidr>, nat>::Ok(
            cs.to_set(),
        ),
    decreases cs.len(),
{
    if cs.len() == 0 {
        assert(cs.to_set() =~= Set::<Cidr>::empty());
    } else {
        let p = cs.drop_last();
        let c = cs.last();
        assert(well_rendered(cs[cs.len() - 1]));
        lemma_parse_rendered_lines(p);
        lemma_entry_of_entry_line(c);
        assert(cs.map_values(|c: Cidr| entry_line(c)).drop_last() == p.map_values(
            |c: Cidr| entry_line(c),
        ));
        assert(p.push(c) == cs);
        lemma_to_set_push(p, c);
    }
}

/// Writing a set out and reading the text back gives the same set.
pub proof fn lemma_round_trip(set: AllowSet)
    requires
        set.wf(),
    ensures
        parse_text(render_text(set.seq())) == Result::<Set<Cidr>, nat>::Ok(set@),
{
    set.lemma_view();
    let cs = set.seq();
    lemma_split_render(cs);
    lemma_parse_rendered_lines(cs);
    let ls = cs.map_values(|c: Cidr| entry_line(c));
    assert(ls.push(Seq::<char>::empty()).drop_last() == ls);
    assert(entry_of(Seq::<char>::empty()) == Seq::<char>::empty());
}

} // verus!
