//! The list of servers to scan: one to a line, a host with or without a port.

use vstd::arithmetic::power::pow;
use vstd::prelude::*;

use crate::text::{chars_of, decimal, push_decimal, signed_decimal, string_of};

verus! {

/// The port of a server that names none.
pub const DEFAULT_PORT: u16 = 25565;

/// A server to scan.
#[derive(Debug, PartialEq, Eq)]
pub struct Target {
    pub host: String,
    pub port: u16,
}

/// A server to scan: its host and its port.
pub struct TargetView {
    pub host: Seq<char>,
    pub port: u16,
}

impl View for Target {
    type V = TargetView;

    open spec fn view(&self) -> TargetView {
        TargetView { host: self.host@, port: self.port }
    }
}

/// The servers of a list.
pub open spec fn target_views(list: Seq<Target>) -> Seq<TargetView> {
    Seq::new(list.len(), |i: int| list[i]@)
}

/// Whether a character has the Unicode property `White_Space`.
pub open spec fn white_space(c: char) -> bool {
    let n = c as u32;
    ||| 0x9 <= n <= 0xd
    ||| n == 0x20
    ||| n == 0x85
    ||| n == 0xa0
    ||| n == 0x1680
    ||| 0x2000 <= n <= 0x200a
    ||| n == 0x2028
    ||| n == 0x2029
    ||| n == 0x202f
    ||| n == 0x205f
    ||| n == 0x3000
}

/// `s` without the white space at its front.
pub open spec fn trim_start(s: Seq<char>) -> Seq<char>
    decreases s.len(),
{
    if s.len() > 0 && white_space(s[0]) {
        trim_start(s.skip(1))
    } else {
        s
    }
}

/// `s` without the white space at its end.
pub open spec fn trim_end(s: Seq<char>) -> Seq<char>
    decreases s.len(),
{
    if s.len() > 0 && white_space(s.last()) {
        trim_end(s.drop_last())
    } else {
        s
    }
}

/// `s` without the white space around it.
pub open spec fn trimmed(s: Seq<char>) -> Seq<char> {
    trim_end(trim_start(s))
}

/// The position of the first `c` in `s`, or its length if there is none.
pub open spec fn first_of(s: Seq<char>, c: char) -> nat
    decreases s.len(),
{
    if s.len() == 0 || s[0] == c {
        0
    } else {
        1 + first_of(s.skip(1), c)
    }
}

/// Whether every character is a decimal digit.
pub open spec fn all_digits(s: Seq<char>) -> bool {
    forall|i: int| 0 <= i < s.len() ==> '0' <= #[trigger] s[i] <= '9'
}

/// The number that decimal digits spell.
pub open spec fn decimal_value(s: Seq<char>) -> nat
    decreases s.len(),
{
    if s.len() == 0 {
        0
    } else {
        10 * decimal_value(s.drop_last()) + (s.last() as nat - '0' as nat) as nat
    }
}

/// The port that `s` spells: decimal digits, possibly behind a plus sign, of a
/// number that is not too large.
pub open spec fn port_value(s: Seq<char>) -> Option<u16> {
    let digits = if s.len() > 0 && s[0] == '+' {
        s.skip(1)
    } else {
        s
    };
    if digits.len() > 0 && all_digits(digits) && decimal_value(digits) <= u16::MAX {
        Some(decimal_value(digits) as u16)
    } else {
        None
    }
}

/// The server that a line names: what stands before its first colon, at the port
/// behind it. Without a colon, or without a port behind it, the usual port is
/// meant.
pub open spec fn target(line: Seq<char>) -> TargetView {
    let colon = first_of(line, ':');
    if colon < line.len() {
        TargetView {
            host: line.take(colon as int),
            port: match port_value(line.skip(colon as int + 1)) {
                Some(port) => port,
                None => DEFAULT_PORT,
            },
        }
    } else {
        TargetView { host: line, port: DEFAULT_PORT }
    }
}

/// What a line adds to the list: nothing if it is blank or a comment.
pub open spec fn line_targets(line: Seq<char>) -> Seq<TargetView> {
    let text = trimmed(line);
    if text.len() == 0 || text[0] == '#' {
        seq![]
    } else {
        seq![target(text)]
    }
}

/// The servers that a text lists, line by line.
pub open spec fn targets(input: Seq<char>) -> Seq<TargetView>
    decreases input.len(),
{
    let end = first_of(input, '\n');
    let first = line_targets(input.take(end as int));
    if end < input.len() {
        first + targets(input.skip(end as int + 1))
    } else {
        first
    }
}

/// Whether a character is white space.
pub fn is_white_space(c: char) -> (yes: bool)
    ensures
        yes == white_space(c),
{
    let n: u32 = c as u32;
    (0x9 <= n && n <= 0xd) || n == 0x20 || n == 0x85 || n == 0xa0 || n == 0x1680 || (0x2000 <= n
        && n <= 0x200a) || n == 0x2028 || n == 0x2029 || n == 0x202f || n == 0x205f || n == 0x3000
}

/// Where the text of `chars` between `from` and `to` begins and ends that is not
/// white space around it.
fn trim_range(chars: &[char], from: usize, to: usize) -> (range: (usize, usize))
    requires
        from <= to <= chars@.len(),
    ensures
        from <= range.0 <= range.1 <= to,
        chars@.subrange(range.0 as int, range.1 as int) == trimmed(
            chars@.subrange(from as int, to as int),
        ),
{
    let ghost whole = chars@.subrange(from as int, to as int);
    let mut start: usize = from;
    while start < to && is_white_space(chars[start])
        invariant
            from <= start <= to <= chars@.len(),
            whole == chars@.subrange(from as int, to as int),
            trim_start(whole) == trim_start(chars@.subrange(start as int, to as int)),
        decreases to - start,
    {
        assert(chars@.subrange(start as int, to as int).skip(1) =~= chars@.subrange(
            start as int + 1,
            to as int,
        ));
        start = start + 1;
    }
    let mut end: usize = to;
    while end > start && is_white_space(chars[end - 1])
        invariant
            from <= start <= end <= to <= chars@.len(),
            trimmed(whole) == trim_end(chars@.subrange(start as int, end as int)),
        decreases end,
    {
        assert(chars@.subrange(start as int, end as int).drop_last() =~= chars@.subrange(
            start as int,
            end as int - 1,
        ));
        end = end - 1;
    }
    (start, end)
}

/// The position of the first `c` in `chars` between `from` and `to`, or `to`.
fn find(chars: &[char], from: usize, to: usize, c: char) -> (at: usize)
    requires
        from <= to <= chars@.len(),
    ensures
        from <= at <= to,
        at == from + first_of(chars@.subrange(from as int, to as int), c),
{
    let ghost whole = chars@.subrange(from as int, to as int);
    let mut at: usize = from;
    while at < to && chars[at] != c
        invariant
            from <= at <= to <= chars@.len(),
            from + first_of(whole, c) == at + first_of(chars@.subrange(at as int, to as int), c),
        decreases to - at,
    {
        assert(chars@.subrange(at as int, to as int).skip(1) =~= chars@.subrange(
            at as int + 1,
            to as int,
        ));
        at = at + 1;
    }
    at
}

/// The port that the characters between `from` and `to` spell.
fn read_port(chars: &[char], from: usize, to: usize) -> (port: Option<u16>)
    requires
        from <= to <= chars@.len(),
    ensures
        port == port_value(chars@.subrange(from as int, to as int)),
{
    let ghost whole = chars@.subrange(from as int, to as int);
    let mut start: usize = from;
    if from < to && chars[from] == '+' {
        start = from + 1;
        assert(whole.skip(1) =~= chars@.subrange(start as int, to as int));
    }
    let ghost digits = chars@.subrange(start as int, to as int);
    if start == to {
        return None;
    }
    let mut value: u32 = 0;
    let mut i: usize = start;
    while i < to
        invariant
            start <= i <= to <= chars@.len(),
            whole == chars@.subrange(from as int, to as int),
            digits == chars@.subrange(start as int, to as int),
            digits == if whole.len() > 0 && whole[0] == '+' {
                whole.skip(1)
            } else {
                whole
            },
            all_digits(digits.take(i - start)),
            value <= 65536,
            value < 65536 ==> value == decimal_value(digits.take(i - start)),
            value == 65536 ==> decimal_value(digits.take(i - start)) >= 65536,
        decreases to - i,
    {
        let c = chars[i];
        if c < '0' || c > '9' {
            assert(digits[i - start] == c);
            return None;
        }
        let d: u32 = c as u32 - 48;
        value = value * 10 + d;
        if value > 65536 {
            value = 65536;
        }
        i = i + 1;
        proof {
            let now = digits.take(i - start);
            assert(now.drop_last() =~= digits.take(i - 1 - start));
            assert forall|k: int| 0 <= k < now.len() implies '0' <= #[trigger] now[k] <= '9' by {
                if k < now.len() - 1 {
                    assert(now[k] == digits.take(i - 1 - start)[k]);
                }
            }
        }
    }
    assert(digits.take(i - start) =~= digits);
    if value <= 65535 {
        Some(value as u16)
    } else {
        None
    }
}

/// The server that the characters between `from` and `to` name.
fn read_target(chars: &[char], from: usize, to: usize) -> (found: Target)
    requires
        from <= to <= chars@.len(),
    ensures
        found@ == target(chars@.subrange(from as int, to as int)),
{
    let ghost line = chars@.subrange(from as int, to as int);
    let colon: usize = find(chars, from, to, ':');
    if colon < to {
        assert(line.take(colon - from) =~= chars@.subrange(from as int, colon as int));
        assert(line.skip(colon - from + 1) =~= chars@.subrange(colon as int + 1, to as int));
        let port: u16 = match read_port(chars, colon + 1, to) {
            Some(port) => port,
            None => DEFAULT_PORT,
        };
        Target { host: string_of(chars, from, colon), port }
    } else {
        Target { host: string_of(chars, from, to), port: DEFAULT_PORT }
    }
}

/// The servers that a text lists: one to a line, without the white space around
/// it. Blank lines, and lines that start with `#`, list none.
pub fn parse_targets(input: &str) -> (list: Vec<Target>)
    ensures
        target_views(list@) == targets(input@),
{
    let chars = chars_of(input);
    let mut list: Vec<Target> = Vec::new();
    let mut start: usize = 0;
    assert(chars@.skip(0) =~= input@);
    assert(target_views(list@) + targets(input@) =~= targets(input@));
    loop
        invariant
            chars@ == input@,
            start <= chars.len(),
            targets(input@) == target_views(list@) + targets(chars@.skip(start as int)),
        decreases chars.len() - start,
    {
        let ghost rest = chars@.skip(start as int);
        let ghost before = target_views(list@);
        assert(rest =~= chars@.subrange(start as int, chars@.len() as int));
        let end: usize = find(&chars, start, chars.len(), '\n');
        assert(rest.take(end - start) =~= chars@.subrange(start as int, end as int));
        let range: (usize, usize) = trim_range(&chars, start, end);
        let ghost line = chars@.subrange(start as int, end as int);
        if range.0 < range.1 && chars[range.0] != '#' {
            list.push(read_target(&chars, range.0, range.1));
        }
        assert(target_views(list@) =~= before + line_targets(line));
        if end == chars.len() {
            return list;
        }
        assert(rest.skip(end - start + 1) =~= chars@.skip(end as int + 1));
        assert(before + (line_targets(line) + targets(chars@.skip(end as int + 1)))
            =~= target_views(list@) + targets(chars@.skip(end as int + 1)));
        start = end + 1;
    }
}

/// How the address of a server is written: its host, a colon and its port.
pub open spec fn address(host: Seq<char>, port: u16) -> Seq<char> {
    host + seq![':'] + decimal(port as nat)
}

/// The address of a server.
pub fn server_address(host: &str, port: u16) -> (text: String)
    ensures
        text@ == address(host@, port),
{
    let mut text: String = host.to_owned();
    text.push(':');
    push_decimal(&mut text, port as u32);
    assert(text@ =~= address(host@, port));
    text
}

proof fn lemma_first_of_bound(s: Seq<char>, c: char)
    ensures
        first_of(s, c) <= s.len(),
        first_of(s, c) < s.len() ==> s[first_of(s, c) as int] == c,
        forall|i: int| 0 <= i < first_of(s, c) ==> s[i] != c,
    decreases s.len(),
{
    if s.len() > 0 && s[0] != c {
        let rest = s.skip(1);
        lemma_first_of_bound(rest, c);
        assert forall|i: int| 0 <= i < first_of(s, c) implies s[i] != c by {
            if i > 0 {
                assert(s[i] == rest[i - 1]);
            }
        }
    }
}

proof fn lemma_first_of_join(a: Seq<char>, b: Seq<char>, c: char)
    ensures
        first_of(a + b, c) == if first_of(a, c) < a.len() {
            first_of(a, c)
        } else {
            a.len() + first_of(b, c)
        },
    decreases a.len(),
{
    if a.len() == 0 {
        assert(a + b =~= b);
    } else if a[0] != c {
        lemma_first_of_join(a.skip(1), b, c);
        assert((a + b).skip(1) =~= a.skip(1) + b);
    }
}

/// Lines are read one by one: a list that is put below another lists the servers
/// of both, in order.
pub proof fn law_targets_by_line(a: Seq<char>, b: Seq<char>)
    ensures
        targets(a + seq!['\n'] + b) == targets(a) + targets(b),
    decreases a.len(),
{
    let below = seq!['\n'] + b;
    let whole = a + seq!['\n'] + b;
    assert(whole =~= a + below);
    let end = first_of(a, '\n');
    lemma_first_of_bound(a, '\n');
    lemma_first_of_join(a, below, '\n');
    assert(whole.take(end as int) =~= a.take(end as int));
    if end < a.len() {
        let rest = a.skip(end as int + 1);
        law_targets_by_line(rest, b);
        assert(whole.skip(end as int + 1) =~= rest + seq!['\n'] + b);
        let first = line_targets(a.take(end as int));
        assert(first + (targets(rest) + targets(b)) =~= (first + targets(rest)) + targets(b));
    } else {
        assert(first_of(below, '\n') == 0);
        assert(whole.skip(end as int + 1) =~= b);
    }
}

/// A line that is blank or a comment can be left out.
pub proof fn law_comments_list_nothing(above: Seq<char>, line: Seq<char>, below: Seq<char>)
    requires
        !line.contains('\n'),
        trimmed(line).len() == 0 || trimmed(line)[0] == '#',
    ensures
        targets(above + seq!['\n'] + line + seq!['\n'] + below) == targets(
            above + seq!['\n'] + below,
        ),
{
    law_targets_by_line(above + seq!['\n'] + line, below);
    law_targets_by_line(above, line);
    law_targets_by_line(above, below);
    lemma_first_of_bound(line, '\n');
    if first_of(line, '\n') < line.len() {
        assert(line.contains(line[first_of(line, '\n') as int]));
    }
    assert(line.take(line.len() as int) =~= line);
    assert(targets(line) =~= Seq::empty());
    assert(targets(above) + targets(line) =~= targets(above));
}

proof fn lemma_decimal_reads_back(n: nat)
    ensures
        decimal(n).len() > 0,
        all_digits(decimal(n)),
        decimal_value(decimal(n)) == n,
    decreases n,
{
    if n < 10 {
        assert(decimal(n).drop_last() =~= Seq::empty());
        assert(decimal_value(decimal(n).drop_last()) == 0);
    } else {
        lemma_decimal_reads_back(n / 10);
        let front = decimal(n / 10);
        assert(decimal(n).drop_last() =~= front);
        assert forall|i: int| 0 <= i < decimal(n).len() implies '0' <= #[trigger] decimal(n)[i]
            <= '9' by {
            if i < front.len() {
                assert(decimal(n)[i] == front[i]);
            }
        }
    }
}

/// An address, put on a line, names the host and the port that it was made of.
pub proof fn law_address_round_trip(host: Seq<char>, port: u16)
    requires
        !host.contains(':'),
    ensures
        target(address(host, port)).host == host,
        target(address(host, port)).port == port,
{
    let digits = decimal(port as nat);
    let tail = seq![':'] + digits;
    let line = address(host, port);
    assert(line =~= host + tail);
    lemma_first_of_bound(host, ':');
    if first_of(host, ':') < host.len() {
        assert(host.contains(host[first_of(host, ':') as int]));
    }
    lemma_first_of_join(host, tail, ':');
    assert(first_of(tail, ':') == 0);
    assert(line.take(host.len() as int) =~= host);
    assert(line.skip(host.len() as int + 1) =~= digits);
    lemma_decimal_reads_back(port as nat);
    assert('0' <= digits[0] <= '9');
}

/// A line without a colon names a host at the usual port.
pub proof fn law_default_port(line: Seq<char>)
    requires
        !line.contains(':'),
    ensures
        target(line).host == line,
        target(line).port == DEFAULT_PORT,
{
    lemma_first_of_bound(line, ':');
    if first_of(line, ':') < line.len() {
        assert(line.contains(line[first_of(line, ':') as int]));
    }
}

proof fn lemma_trim_start(s: Seq<char>)
    ensures
        trim_start(s).len() > 0 ==> !white_space(trim_start(s)[0]),
    decreases s.len(),
{
    if s.len() > 0 && white_space(s[0]) {
        lemma_trim_start(s.skip(1));
    }
}

proof fn lemma_trim_end(s: Seq<char>)
    ensures
        trim_end(s).len() > 0 ==> !white_space(trim_end(s).last()),
        trim_end(s).len() <= s.len(),
        trim_end(s) == s.take(trim_end(s).len() as int),
    decreases s.len(),
{
    if s.len() > 0 && white_space(s.last()) {
        lemma_trim_end(s.drop_last());
        assert(s.drop_last().take(trim_end(s).len() as int) =~= s.take(trim_end(s).len() as int));
    } else {
        assert(s.take(s.len() as int) =~= s);
    }
}

/// Trimmed text neither begins nor ends with white space.
pub proof fn law_trimmed(s: Seq<char>)
    ensures
        trimmed(s).len() > 0 ==> !white_space(trimmed(s)[0]) && !white_space(trimmed(s).last()),
        trimmed(trimmed(s)) == trimmed(s),
{
    lemma_trim_start(s);
    lemma_trim_end(trim_start(s));
}

/// The characters that count as white space are these.
pub proof fn law_white_space(c: char)
    ensures
        white_space(c) <==> seq![
            '\t',
            '\n',
            '\u{b}',
            '\u{c}',
            '\r',
            ' ',
            '\u{85}',
            '\u{a0}',
            '\u{1680}',
            '\u{2000}',
            '\u{2001}',
            '\u{2002}',
            '\u{2003}',
            '\u{2004}',
            '\u{2005}',
            '\u{2006}',
            '\u{2007}',
            '\u{2008}',
            '\u{2009}',
            '\u{200a}',
            '\u{2028}',
            '\u{2029}',
            '\u{202f}',
            '\u{205f}',
            '\u{3000}',
        ].contains(c),
{
    let all = seq![
        '\t',
        '\n',
        '\u{b}',
        '\u{c}',
        '\r',
        ' ',
        '\u{85}',
        '\u{a0}',
        '\u{1680}',
        '\u{2000}',
        '\u{2001}',
        '\u{2002}',
        '\u{2003}',
        '\u{2004}',
        '\u{2005}',
        '\u{2006}',
        '\u{2007}',
        '\u{2008}',
        '\u{2009}',
        '\u{200a}',
        '\u{2028}',
        '\u{2029}',
        '\u{202f}',
        '\u{205f}',
        '\u{3000}',
    ];
    let n = c as int;
    if white_space(c) {
        let at = if n <= 0xd {
            n - 9
        } else if n == 0x20 {
            5
        } else if n == 0x85 {
            6
        } else if n == 0xa0 {
            7
        } else if n == 0x1680 {
            8
        } else if n <= 0x200a {
            n - 0x2000 + 9
        } else if n == 0x2028 {
            20
        } else if n == 0x2029 {
            21
        } else if n == 0x202f {
            22
        } else if n == 0x205f {
            23
        } else {
            24
        };
        assert(all[at] == c);
    }
}

proof fn lemma_trim_start_of(front: Seq<char>, rest: Seq<char>)
    requires
        forall|i: int| 0 <= i < front.len() ==> white_space(#[trigger] front[i]),
        rest.len() > 0 ==> !white_space(rest[0]),
    ensures
        trim_start(front + rest) == rest,
    decreases front.len(),
{
    let whole = front + rest;
    if front.len() == 0 {
        assert(whole =~= rest);
    } else {
        assert(white_space(front[0]));
        lemma_trim_start_of(front.skip(1), rest);
        assert(whole.skip(1) =~= front.skip(1) + rest);
    }
}

proof fn lemma_trim_end_of(rest: Seq<char>, back: Seq<char>)
    requires
        forall|i: int| 0 <= i < back.len() ==> white_space(#[trigger] back[i]),
        rest.len() > 0 ==> !white_space(rest.last()),
    ensures
        trim_end(rest + back) == rest,
    decreases back.len(),
{
    let whole = rest + back;
    if back.len() == 0 {
        assert(whole =~= rest);
    } else {
        assert(white_space(back[back.len() - 1]));
        lemma_trim_end_of(rest, back.drop_last());
        assert(whole.drop_last() =~= rest + back.drop_last());
    }
}

/// White space around a text is left out, all of it and nothing else.
pub proof fn law_trimmed_is_the_text(front: Seq<char>, text: Seq<char>, back: Seq<char>)
    requires
        forall|i: int| 0 <= i < front.len() ==> white_space(#[trigger] front[i]),
        forall|i: int| 0 <= i < back.len() ==> white_space(#[trigger] back[i]),
        text.len() > 0 ==> !white_space(text[0]) && !white_space(text.last()),
    ensures
        trimmed(front + text + back) == text,
{
    let whole = front + text + back;
    if text.len() > 0 {
        assert(whole =~= front + (text + back));
        lemma_trim_start_of(front, text + back);
        lemma_trim_end_of(text, back);
    } else {
        let blank = front + back;
        assert(whole =~= blank + text);
        assert forall|i: int| 0 <= i < blank.len() implies white_space(#[trigger] blank[i]) by {
            if i < front.len() {
                assert(blank[i] == front[i]);
            } else {
                assert(blank[i] == back[i - front.len()]);
            }
        }
        lemma_trim_start_of(blank, text);
    }
}

/// A line lists the one server that its text names, whatever white space stands
/// around that, and lists none if there is no text or a `#` starts it.
pub proof fn law_line_lists_its_server(front: Seq<char>, text: Seq<char>, back: Seq<char>)
    requires
        forall|i: int| 0 <= i < front.len() ==> white_space(#[trigger] front[i]),
        forall|i: int| 0 <= i < back.len() ==> white_space(#[trigger] back[i]),
        text.len() > 0 ==> !white_space(text[0]) && !white_space(text.last()),
        !(front + text + back).contains('\n'),
    ensures
        text.len() == 0 ==> targets(front + text + back).len() == 0,
        text.len() > 0 && text[0] == '#' ==> targets(front + text + back).len() == 0,
        text.len() > 0 && text[0] != '#' ==> targets(front + text + back) == seq![target(text)],
{
    let line = front + text + back;
    law_trimmed_is_the_text(front, text, back);
    lemma_first_of_bound(line, '\n');
    if first_of(line, '\n') < line.len() {
        assert(line.contains(line[first_of(line, '\n') as int]));
    }
    assert(line.take(line.len() as int) =~= line);
}

/// The host is what stands before the first colon. The port is what stands behind
/// it, if that spells one, and the usual port if not.
pub proof fn law_target_at_first_colon(host: Seq<char>, behind: Seq<char>)
    requires
        !host.contains(':'),
    ensures
        target(host + seq![':'] + behind).host == host,
        port_value(behind) matches Some(port) ==> target(host + seq![':'] + behind).port == port,
        port_value(behind) is None ==> target(host + seq![':'] + behind).port == 25565,
{
    let tail = seq![':'] + behind;
    let line = host + seq![':'] + behind;
    assert(line =~= host + tail);
    lemma_first_of_bound(host, ':');
    if first_of(host, ':') < host.len() {
        assert(host.contains(host[first_of(host, ':') as int]));
    }
    lemma_first_of_join(host, tail, ':');
    assert(first_of(tail, ':') == 0);
    assert(line.take(host.len() as int) =~= host);
    assert(line.skip(host.len() as int + 1) =~= behind);
}

/// A port is spelled by decimal digits and no other characters, but for one plus
/// sign that may stand before them. A number above the largest port is none, and
/// neither is no digit at all.
pub proof fn law_port_value(digits: Seq<char>, s: Seq<char>)
    ensures
        digits.len() > 0 && (forall|i: int| 0 <= i < digits.len() ==> '0' <= #[trigger] digits[i]
            <= '9') ==> {
            &&& decimal_value(digits) <= 65535 ==> port_value(digits) == Some(
                decimal_value(digits) as u16,
            ) && port_value(seq!['+'] + digits) == Some(decimal_value(digits) as u16)
            &&& decimal_value(digits) > 65535 ==> port_value(digits) is None && port_value(
                seq!['+'] + digits,
            ) is None
        },
        s.len() == 0 ==> port_value(s) is None,
        s.len() > 0 && !('0' <= s[0] <= '9') && s[0] != '+' ==> port_value(s) is None,
        s.len() == 1 && s[0] == '+' ==> port_value(s) is None,
        (exists|i: int| 1 <= i < s.len() && !('0' <= #[trigger] s[i] <= '9')) ==> port_value(s)
            is None,
{
    if digits.len() > 0 && forall|i: int|
        0 <= i < digits.len() ==> '0' <= #[trigger] digits[i] <= '9' {
        assert('0' <= digits[0] <= '9');
        assert((seq!['+'] + digits).skip(1) =~= digits);
    }
    if exists|i: int| 1 <= i < s.len() && !('0' <= #[trigger] s[i] <= '9') {
        let at = choose|i: int| 1 <= i < s.len() && !('0' <= #[trigger] s[i] <= '9');
        assert(s.skip(1)[at - 1] == s[at]);
    }
}

/// Digits count in tens: those in front of others count ten times as much for each
/// that follows. Alone, a digit counts its place among the ten.
pub proof fn law_decimal_value(front: Seq<char>, back: Seq<char>, d: int)
    ensures
        decimal_value(front + back) == decimal_value(front) * pow(10, back.len()) + decimal_value(
            back,
        ),
        0 <= d < 10 ==> decimal_value(seq!["0123456789"@[d]]) == d,
    decreases back.len(),
{
    reveal(pow);
    if back.len() == 0 {
        assert(front + back =~= front);
        assert(decimal_value(front) * 1 == decimal_value(front));
    } else {
        law_decimal_value(front, back.drop_last(), d);
        assert((front + back).drop_last() =~= front + back.drop_last());
        let x = decimal_value(front) as int;
        let y = pow(10, (back.len() - 1) as nat);
        assert(pow(10, back.len()) == 10 * y);
        assert(10 * (x * y) == x * (10 * y)) by (nonlinear_arith);
    }
    if 0 <= d < 10 {
        reveal_strlit("0123456789");
        let one = seq!["0123456789"@[d]];
        assert(one.drop_last() =~= Seq::empty());
        assert(decimal_value(one.drop_last()) == 0);
    }
}

proof fn lemma_decimal_has_no_leading_zero(n: nat)
    ensures
        decimal(n).len() > 0,
        n > 0 ==> decimal(n)[0] != '0',
    decreases n,
{
    if n >= 10 {
        lemma_decimal_has_no_leading_zero(n / 10);
        assert(decimal(n)[0] == decimal(n / 10)[0]);
    }
}

/// A number is written in decimal digits that spell it, without zeros in front,
/// and behind a minus sign if it is negative.
pub proof fn law_decimal(n: nat)
    ensures
        decimal(n).len() > 0,
        forall|i: int| 0 <= i < decimal(n).len() ==> '0' <= #[trigger] decimal(n)[i] <= '9',
        decimal_value(decimal(n)) == n,
        n > 0 ==> decimal(n)[0] != '0',
        n == 0 ==> decimal(n) == seq!['0'],
        signed_decimal(n as int) == decimal(n),
        n > 0 ==> signed_decimal(-n) == seq!['-'] + decimal(n),
{
    lemma_decimal_reads_back(n);
    lemma_decimal_has_no_leading_zero(n);
}

/// An address is the host, a colon and the digits of the port, whatever the host.
pub proof fn law_address(host: Seq<char>, port: u16)
    ensures
        ({
            let text = address(host, port);
            let n = host.len() as int;
            let digits = text.skip(n + 1);
            &&& text.take(n) == host
            &&& text[n] == ':'
            &&& digits.len() > 0
            &&& forall|i: int| 0 <= i < digits.len() ==> '0' <= #[trigger] digits[i] <= '9'
            &&& decimal_value(digits) == port
            &&& digits[0] == '0' ==> digits.len() == 1
        }),
{
    let text = address(host, port);
    law_decimal(port as nat);
    assert(text.take(host.len() as int) =~= host);
    assert(text.skip(host.len() as int + 1) =~= decimal(port as nat));
}

/// A list of servers is seen as it is, one by one.
pub proof fn law_target_views(list: Seq<Target>, i: int)
    ensures
        target_views(list).len() == list.len(),
        0 <= i < list.len() ==> target_views(list)[i].host == list[i].host@ && target_views(
            list,
        )[i].port == list[i].port,
{
}

} // verus!
