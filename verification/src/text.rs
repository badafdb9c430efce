use vstd::prelude::*;
use vstd::string::*;

verus! {

/// `String::push` of std appends a character.
pub assume_specification[ String::push ](s: &mut String, c: char)
    ensures
        final(s)@ == old(s)@.push(c),
;

/// The hexadecimal digit of `n`.
pub open spec fn hex_digit(n: u32) -> char {
    match n {
        0 => '0',
        1 => '1',
        2 => '2',
        3 => '3',
        4 => '4',
        5 => '5',
        6 => '6',
        7 => '7',
        8 => '8',
        9 => '9',
        10 => 'A',
        11 => 'B',
        12 => 'C',
        13 => 'D',
        14 => 'E',
        _ => 'F',
    }
}

/// The last `digits` hexadecimal digits of `n`.
pub open spec fn hex(n: nat, digits: nat) -> Seq<char>
    decreases digits,
{
    if digits == 0 {
        Seq::empty()
    } else {
        hex(n / 16, (digits - 1) as nat).push(hex_digit((n % 16) as u32))
    }
}

fn hex_char(n: u32) -> (r: char)
    requires
        n < 16,
    ensures
        r == hex_digit(n),
{
    match n {
        0 => '0',
        1 => '1',
        2 => '2',
        3 => '3',
        4 => '4',
        5 => '5',
        6 => '6',
        7 => '7',
        8 => '8',
        9 => '9',
        10 => 'A',
        11 => 'B',
        12 => 'C',
        13 => 'D',
        14 => 'E',
        _ => 'F',
    }
}

/// Appends the last `digits` hexadecimal digits of `n`.
pub fn push_hex(s: &mut String, n: u32, digits: u32)
    ensures
        final(s)@ == old(s)@ + hex(n as nat, digits as nat),
    decreases digits,
{
    if digits > 0 {
        push_hex(s, n / 16, digits - 1);
        s.push(hex_char(n % 16));
    }
}

/// The characters of a text.
pub fn chars_of(s: &str) -> (r: Vec<char>)
    ensures
        r@ == s@,
{
    let n: usize = s.unicode_len();
    let mut out: Vec<char> = Vec::new();
    let mut i: usize = 0;
    while i < n
        invariant
            i <= n,
            n == s@.len(),
            out@ == s@.take(i as int),
        decreases n - i,
    {
        out.push(s.get_char(i));
        assert(s@.take(i as int + 1) =~= s@.take(i as int).push(s@[i as int]));
        i += 1;
    }
    assert(s@.take(n as int) =~= s@);
    out
}

/// The text of some characters.
pub fn string_of(chars: &Vec<char>) -> (r: String)
    ensures
        r@ == chars@,
{
    let mut out: String = String::new();
    let mut i: usize = 0;
    while i < chars.len()
        invariant
            i <= chars.len(),
            out@ == chars@.take(i as int),
        decreases chars.len() - i,
    {
        out.push(chars[i]);
        assert(chars@.take(i as int + 1) =~= chars@.take(i as int).push(chars@[i as int]));
        i += 1;
    }
    assert(chars@.take(chars@.len() as int) =~= chars@);
    out
}

/// Whether two texts are the same.
pub fn same_text(a: &str, b: &str) -> (r: bool)
    ensures
        r == (a@ == b@),
{
    a.to_owned() == b.to_owned()
}

/// Whether a text begins with another.
pub open spec fn begins_with(s: Seq<char>, prefix: Seq<char>) -> bool {
    s.len() >= prefix.len() && s.take(prefix.len() as int) == prefix
}

/// Whether a text begins with another.
pub fn text_begins_with(s: &str, prefix: &str) -> (r: bool)
    ensures
        r == begins_with(s@, prefix@),
{
    let n: usize = prefix.unicode_len();
    if s.unicode_len() < n {
        return false;
    }
    let mut i: usize = 0;
    while i < n
        invariant
            i <= n,
            n == prefix@.len(),
            n <= s@.len(),
            forall|k: int| 0 <= k < i ==> s@[k] == prefix@[k],
        decreases n - i,
    {
        if s.get_char(i) != prefix.get_char(i) {
            assert(s@.take(n as int)[i as int] != prefix@[i as int]);
            return false;
        }
        i += 1;
    }
    assert(s@.take(n as int) =~= prefix@);
    true
}

/// A character that separates the parts of a path.
pub open spec fn separates(c: char) -> bool {
    c == '/' || c == ':'
}

/// The first `n` characters of a path in normal form, and whether a separator
/// is due before the next part.
pub open spec fn normal_prefix(p: Seq<char>, n: nat) -> (Seq<char>, bool)
    decreases n,
{
    if n == 0 {
        (Seq::empty(), false)
    } else {
        let (out, due) = normal_prefix(p, (n - 1) as nat);
        let c = p[n - 1];
        if separates(c) {
            (out, true)
        } else if due && out.len() > 0 {
            (out.push('/').push(c), false)
        } else {
            (out.push(c), false)
        }
    }
}

/// The normal form of a path: its parts, which `/` or `:` separate, joined by
/// `/`; empty parts are left out.
pub open spec fn normal_path(p: Seq<char>) -> Seq<char> {
    normal_prefix(p, p.len()).0
}

/// The normal form of a path.
pub fn normalize_path(path: &str) -> (r: String)
    ensures
        r@ == normal_path(path@),
{
    let chars: Vec<char> = chars_of(path);
    let mut out: Vec<char> = Vec::new();
    let mut due: bool = false;
    let mut i: usize = 0;
    while i < chars.len()
        invariant
            i <= chars.len(),
            chars@ == path@,
            (out@, due) == normal_prefix(path@, i as nat),
        decreases chars.len() - i,
    {
        let c: char = chars[i];
        if c == '/' || c == ':' {
            due = true;
        } else {
            if due && out.len() > 0 {
                out.push('/');
            }
            out.push(c);
            due = false;
        }
        i += 1;
    }
    string_of(&out)
}

/// A path in normal form: no separator but `/`, and that only between parts.
pub open spec fn is_normal(p: Seq<char>) -> bool {
    &&& forall|i: int| 0 <= i < p.len() ==> #[trigger] p[i] != ':'
    &&& forall|i: int| 0 <= i < p.len() && #[trigger] p[i] == '/' ==> 0 < i < p.len() - 1 && p[i - 1] != '/'
}

proof fn lemma_normal_prefix(p: Seq<char>, n: nat)
    requires
        n <= p.len(),
    ensures
        is_normal(normal_prefix(p, n).0),
        normal_prefix(p, n).0.len() > 0 ==> normal_prefix(p, n).0.last() != '/',
    decreases n,
{
    if n > 0 {
        lemma_normal_prefix(p, (n - 1) as nat);
        let (out, due) = normal_prefix(p, (n - 1) as nat);
        let c = p[n - 1];
        let next = normal_prefix(p, n).0;
        if !separates(c) {
            assert forall|i: int| 0 <= i < next.len() && #[trigger] next[i] == '/' implies 0 < i < next.len() - 1
                && next[i - 1] != '/' by {
                if i < out.len() {
                    assert(out[i] == '/');
                }
            }
        }
    }
}

/// What `normal_path` gives is in normal form.
pub proof fn lemma_normal_path_is_normal(p: Seq<char>)
    ensures
        is_normal(normal_path(p)),
{
    lemma_normal_prefix(p, p.len());
}

proof fn lemma_normal_prefix_of_normal(p: Seq<char>, n: nat)
    requires
        is_normal(p),
        n <= p.len(),
    ensures
        n > 0 && p[n - 1] == '/' ==> normal_prefix(p, n) == (p.take(n - 1), true),
        n == 0 || p[n - 1] != '/' ==> normal_prefix(p, n) == (p.take(n as int), false),
    decreases n,
{
    if n > 0 {
        lemma_normal_prefix_of_normal(p, (n - 1) as nat);
        let c = p[n - 1];
        if n > 1 && p[n - 2] == '/' {
            assert(p.take(n - 2).push('/').push(c) =~= p.take(n as int));
        } else {
            assert(p.take(n - 1).push(c) =~= p.take(n as int));
        }
    } else {
        assert(p.take(0) =~= Seq::<char>::empty());
    }
}

/// A path in normal form is its own normal form.
pub proof fn lemma_normal_path_is_stable(p: Seq<char>)
    requires
        is_normal(p),
    ensures
        normal_path(p) == p,
{
    lemma_normal_prefix_of_normal(p, p.len());
    assert(p.take(p.len() as int) =~= p);
    if p.len() > 0 {
        assert(p[p.len() - 1] != '/');
    }
}

/// Where the last part of a path begins: behind its last separator.
pub open spec fn last_part(p: Seq<char>, n: nat) -> int
    decreases n,
{
    if n == 0 {
        0
    } else if separates(p[n - 1]) {
        n as int
    } else {
        last_part(p, (n - 1) as nat)
    }
}

/// The last part begins within the path, behind a separator.
pub proof fn lemma_last_part(p: Seq<char>, n: nat)
    requires
        n <= p.len(),
    ensures
        0 <= last_part(p, n) <= n,
        last_part(p, n) > 0 ==> separates(p[last_part(p, n) - 1]),
    decreases n,
{
    if n > 0 && !separates(p[n - 1]) {
        lemma_last_part(p, (n - 1) as nat);
    }
}

/// The last part of a path.
pub open spec fn base_name(p: Seq<char>) -> Seq<char> {
    p.skip(last_part(p, p.len()))
}

/// A path without its last part and the separator before it.
pub open spec fn parent_path(p: Seq<char>) -> Seq<char> {
    let i = last_part(p, p.len());
    if i > 0 {
        p.take(i - 1)
    } else {
        Seq::empty()
    }
}

fn find_last_part(chars: &Vec<char>) -> (r: usize)
    ensures
        r == last_part(chars@, chars@.len()),
        r <= chars@.len(),
{
    let mut i: usize = chars.len();
    while i > 0
        invariant
            i <= chars.len(),
            last_part(chars@, chars@.len()) == last_part(chars@, i as nat),
        decreases i,
    {
        if chars[i - 1] == '/' || chars[i - 1] == ':' {
            return i;
        }
        i -= 1;
    }
    0
}

fn slice_text(chars: &Vec<char>, from: usize, to: usize) -> (r: String)
    requires
        from <= to <= chars@.len(),
    ensures
        r@ == chars@.subrange(from as int, to as int),
{
    let mut out: String = String::new();
    let mut i: usize = from;
    while i < to
        invariant
            from <= i <= to <= chars@.len(),
            out@ == chars@.subrange(from as int, i as int),
        decreases to - i,
    {
        out.push(chars[i]);
        assert(chars@.subrange(from as int, i as int + 1) =~= chars@.subrange(from as int, i as int).push(
            chars@[i as int],
        ));
        i += 1;
    }
    out
}

/// The last part of a path.
pub fn path_base_name(path: &str) -> (r: String)
    ensures
        r@ == base_name(path@),
{
    let chars: Vec<char> = chars_of(path);
    let i: usize = find_last_part(&chars);
    slice_text(&chars, i, chars.len())
}

/// A path without its last part.
pub fn path_parent(path: &str) -> (r: String)
    ensures
        r@ == parent_path(path@),
{
    let chars: Vec<char> = chars_of(path);
    let i: usize = find_last_part(&chars);
    if i > 0 {
        assert(chars@.subrange(0, i - 1) =~= chars@.take(i - 1));
        slice_text(&chars, 0, i - 1)
    } else {
        String::new()
    }
}

/// The path of `name` in the folder `parent`; no folder is named by an empty path.
pub open spec fn joined(parent: Seq<char>, name: Seq<char>) -> Seq<char> {
    if parent.len() == 0 {
        name
    } else {
        parent.push('/') + name
    }
}

/// The path of `name` in the folder `parent`.
pub fn join_path(parent: &str, name: &str) -> (r: String)
    ensures
        r@ == joined(parent@, name@),
{
    if parent.unicode_len() == 0 {
        return name.to_owned();
    }
    let mut s: String = parent.to_owned();
    s.push('/');
    s.append(name);
    s
}

/// A character that the Macintosh character set has.
pub open spec fn in_mac_roman(c: char) -> bool {
    (c as u32) < 128 || match c {
        '\u{C4}' | '\u{C5}' | '\u{C7}' | '\u{C9}' | '\u{D1}' | '\u{D6}' | '\u{DC}' | '\u{E1}'
            | '\u{E0}' | '\u{E2}' | '\u{E4}' | '\u{E3}' | '\u{E5}' | '\u{E7}' | '\u{E9}' | '\u{E8}'
            | '\u{EA}' | '\u{EB}' | '\u{ED}' | '\u{EC}' | '\u{EE}' | '\u{EF}' | '\u{F1}' | '\u{F3}'
            | '\u{F2}' | '\u{F4}' | '\u{F6}' | '\u{F5}' | '\u{FA}' | '\u{F9}' | '\u{FB}' | '\u{FC}'
            | '\u{2020}' | '\u{B0}' | '\u{A2}' | '\u{A3}' | '\u{A7}' | '\u{2022}' | '\u{B6}' | '\u{DF}'
            | '\u{AE}' | '\u{A9}' | '\u{2122}' | '\u{B4}' | '\u{A8}' | '\u{2260}' | '\u{C6}' | '\u{D8}'
            | '\u{221E}' | '\u{B1}' | '\u{2264}' | '\u{2265}' | '\u{A5}' | '\u{B5}' | '\u{2202}' | '\u{2211}'
            | '\u{220F}' | '\u{3C0}' | '\u{222B}' | '\u{AA}' | '\u{BA}' | '\u{3A9}' | '\u{E6}' | '\u{F8}'
            | '\u{BF}' | '\u{A1}' | '\u{AC}' | '\u{221A}' | '\u{192}' | '\u{2248}' | '\u{2206}' | '\u{AB}'
            | '\u{BB}' | '\u{2026}' | '\u{A0}' | '\u{C0}' | '\u{C3}' | '\u{D5}' | '\u{152}' | '\u{153}'
            | '\u{2013}' | '\u{2014}' | '\u{201C}' | '\u{201D}' | '\u{2018}' | '\u{2019}' | '\u{F7}' | '\u{25CA}'
            | '\u{FF}' | '\u{178}' | '\u{2044}' | '\u{20AC}' | '\u{2039}' | '\u{203A}' | '\u{FB01}' | '\u{FB02}'
            | '\u{2021}' | '\u{B7}' | '\u{201A}' | '\u{201E}' | '\u{2030}' | '\u{C2}' | '\u{CA}' | '\u{C1}'
            | '\u{CB}' | '\u{C8}' | '\u{CD}' | '\u{CE}' | '\u{CF}' | '\u{CC}' | '\u{D3}' | '\u{D4}'
            | '\u{F8FF}' | '\u{D2}' | '\u{DA}' | '\u{DB}' | '\u{D9}' | '\u{131}' | '\u{2C6}' | '\u{2DC}'
            | '\u{AF}' | '\u{2D8}' | '\u{2D9}' | '\u{2DA}' | '\u{B8}' | '\u{2DD}' | '\u{2DB}' | '\u{2C7}' => true,
        _ => false,
    }
}

/// Whether the Macintosh character set has a character.
pub fn is_mac_roman(c: char) -> (r: bool)
    ensures
        r == in_mac_roman(c),
{
    (c as u32) < 128 || match c {
        '\u{C4}' | '\u{C5}' | '\u{C7}' | '\u{C9}' | '\u{D1}' | '\u{D6}' | '\u{DC}' | '\u{E1}'
            | '\u{E0}' | '\u{E2}' | '\u{E4}' | '\u{E3}' | '\u{E5}' | '\u{E7}' | '\u{E9}' | '\u{E8}'
            | '\u{EA}' | '\u{EB}' | '\u{ED}' | '\u{EC}' | '\u{EE}' | '\u{EF}' | '\u{F1}' | '\u{F3}'
            | '\u{F2}' | '\u{F4}' | '\u{F6}' | '\u{F5}' | '\u{FA}' | '\u{F9}' | '\u{FB}' | '\u{FC}'
            | '\u{2020}' | '\u{B0}' | '\u{A2}' | '\u{A3}' | '\u{A7}' | '\u{2022}' | '\u{B6}' | '\u{DF}'
            | '\u{AE}' | '\u{A9}' | '\u{2122}' | '\u{B4}' | '\u{A8}' | '\u{2260}' | '\u{C6}' | '\u{D8}'
            | '\u{221E}' | '\u{B1}' | '\u{2264}' | '\u{2265}' | '\u{A5}' | '\u{B5}' | '\u{2202}' | '\u{2211}'
            | '\u{220F}' | '\u{3C0}' | '\u{222B}' | '\u{AA}' | '\u{BA}' | '\u{3A9}' | '\u{E6}' | '\u{F8}'
            | '\u{BF}' | '\u{A1}' | '\u{AC}' | '\u{221A}' | '\u{192}' | '\u{2248}' | '\u{2206}' | '\u{AB}'
            | '\u{BB}' | '\u{2026}' | '\u{A0}' | '\u{C0}' | '\u{C3}' | '\u{D5}' | '\u{152}' | '\u{153}'
            | '\u{2013}' | '\u{2014}' | '\u{201C}' | '\u{201D}' | '\u{2018}' | '\u{2019}' | '\u{F7}' | '\u{25CA}'
            | '\u{FF}' | '\u{178}' | '\u{2044}' | '\u{20AC}' | '\u{2039}' | '\u{203A}' | '\u{FB01}' | '\u{FB02}'
            | '\u{2021}' | '\u{B7}' | '\u{201A}' | '\u{201E}' | '\u{2030}' | '\u{C2}' | '\u{CA}' | '\u{C1}'
            | '\u{CB}' | '\u{C8}' | '\u{CD}' | '\u{CE}' | '\u{CF}' | '\u{CC}' | '\u{D3}' | '\u{D4}'
            | '\u{F8FF}' | '\u{D2}' | '\u{DA}' | '\u{DB}' | '\u{D9}' | '\u{131}' | '\u{2C6}' | '\u{2DC}'
            | '\u{AF}' | '\u{2D8}' | '\u{2D9}' | '\u{2DA}' | '\u{B8}' | '\u{2DD}' | '\u{2DB}' | '\u{2C7}' => true,
        _ => false,
    }
}

/// Most characters of a file name.
pub const MAX_FILE_NAME: usize = 63;

/// A character as a file name can hold it.
pub open spec fn file_name_char(c: char) -> char {
    if separates(c) {
        '-'
    } else if in_mac_roman(c) {
        c
    } else {
        '?'
    }
}

/// A text as a file name: separators become hyphens, characters that the
/// Macintosh does not have become question marks, and what is too long is cut.
pub open spec fn file_name(s: Seq<char>) -> Seq<char> {
    Seq::new(
        if s.len() < MAX_FILE_NAME { s.len() } else { MAX_FILE_NAME as nat },
        |i: int| file_name_char(s[i]),
    )
}

/// A text as a file name.
pub fn guest_file_name(s: &str) -> (r: String)
    ensures
        r@ == file_name(s@),
{
    let chars: Vec<char> = chars_of(s);
    let n: usize = if chars.len() < MAX_FILE_NAME { chars.len() } else { MAX_FILE_NAME };
    let mut out: String = String::new();
    let mut i: usize = 0;
    while i < n
        invariant
            i <= n,
            n <= chars@.len(),
            chars@ == s@,
            n == file_name(s@).len(),
            out@ == file_name(s@).take(i as int),
        decreases n - i,
    {
        let c: char = chars[i];
        let safe: char = if c == '/' || c == ':' {
            '-'
        } else if is_mac_roman(c) {
            c
        } else {
            '?'
        };
        out.push(safe);
        assert(file_name(s@).take(i as int + 1) =~= file_name(s@).take(i as int).push(file_name_char(s@[i as int])));
        i += 1;
    }
    assert(file_name(s@).take(n as int) =~= file_name(s@));
    out
}

} // verus!
