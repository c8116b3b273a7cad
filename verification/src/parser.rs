//! Recursive-descent parsers for the template and driver-data grammars.
//!
//! Both grammars are stated as spec functions over the input's characters;
//! the executable parsers return exactly what the spec functions describe.
//! Parsing consumes the whole input: trailing text that does not start a
//! further statement is an error carrying the unconsumed remainder.

use vstd::prelude::*;

verus! {

/// Whitespace accepted between tokens.
pub open spec fn is_ws_char(c: char) -> bool {
    c == ' ' || c == '\t' || c == '\n'
}

/// Characters allowed in an identifier.
pub open spec fn is_ident_char(c: char) -> bool {
    ('a' <= c && c <= 'z') || ('A' <= c && c <= 'Z') || ('0' <= c && c <= '9') || c == '_' || c
        == '-'
}

/// A decimal digit.
pub open spec fn is_digit_char(c: char) -> bool {
    '0' <= c && c <= '9'
}

/// Characters an integer token is drawn from.
pub open spec fn is_num_char(c: char) -> bool {
    is_digit_char(c) || c == '-'
}

/// The first position at or after `pos` holding no whitespace character.
pub open spec fn ws_end(s: Seq<char>, pos: int) -> int
    decreases s.len() - pos,
    when 0 <= pos <= s.len()
{
    if pos >= s.len() {
        pos
    } else if is_ws_char(s[pos]) {
        ws_end(s, pos + 1)
    } else {
        pos
    }
}

/// The first position at or after `pos` holding no identifier character.
pub open spec fn ident_end(s: Seq<char>, pos: int) -> int
    decreases s.len() - pos,
    when 0 <= pos <= s.len()
{
    if pos >= s.len() {
        pos
    } else if is_ident_char(s[pos]) {
        ident_end(s, pos + 1)
    } else {
        pos
    }
}

/// The first position at or after `pos` holding no digit and no `-`.
pub open spec fn num_end(s: Seq<char>, pos: int) -> int
    decreases s.len() - pos,
    when 0 <= pos <= s.len()
{
    if pos >= s.len() {
        pos
    } else if is_num_char(s[pos]) {
        num_end(s, pos + 1)
    } else {
        pos
    }
}

pub proof fn lemma_ws_end_bounds(s: Seq<char>, pos: int)
    requires
        0 <= pos <= s.len(),
    ensures
        pos <= ws_end(s, pos) <= s.len(),
    decreases s.len() - pos,
{
    if pos < s.len() && is_ws_char(s[pos]) {
        lemma_ws_end_bounds(s, pos + 1);
    }
}

pub proof fn lemma_ident_end_bounds(s: Seq<char>, pos: int)
    requires
        0 <= pos <= s.len(),
    ensures
        pos <= ident_end(s, pos) <= s.len(),
    decreases s.len() - pos,
{
    if pos < s.len() && is_ident_char(s[pos]) {
        lemma_ident_end_bounds(s, pos + 1);
    }
}

pub proof fn lemma_num_end_bounds(s: Seq<char>, pos: int)
    requires
        0 <= pos <= s.len(),
    ensures
        pos <= num_end(s, pos) <= s.len(),
    decreases s.len() - pos,
{
    if pos < s.len() && is_num_char(s[pos]) {
        lemma_num_end_bounds(s, pos + 1);
    }
}

/// Consuming one or more whitespace characters: the position after them, or
/// `None` if none is present.
pub open spec fn spec_ws1(s: Seq<char>, pos: int) -> Option<int> {
    if 0 <= pos < s.len() && is_ws_char(s[pos]) {
        Some(ws_end(s, pos))
    } else {
        None
    }
}

/// Consuming an identifier of one or more characters: the position after it.
pub open spec fn spec_ident(s: Seq<char>, pos: int) -> Option<int> {
    if 0 <= pos < s.len() && is_ident_char(s[pos]) {
        Some(ident_end(s, pos))
    } else {
        None
    }
}

/// Consuming the three-character keyword `c0 c1 c2`.
pub open spec fn spec_tag3(s: Seq<char>, pos: int, c0: char, c1: char, c2: char) -> Option<int> {
    if 0 <= pos && pos + 3 <= s.len() && s[pos] == c0 && s[pos + 1] == c1 && s[pos + 2] == c2 {
        Some(pos + 3)
    } else {
        None
    }
}

/// Consuming the single character `c0`.
pub open spec fn spec_tag1(s: Seq<char>, pos: int, c0: char) -> Option<int> {
    if 0 <= pos < s.len() && s[pos] == c0 {
        Some(pos + 1)
    } else {
        None
    }
}

/// Consuming the keyword `@CLASS`.
pub open spec fn spec_tag_class(s: Seq<char>, pos: int) -> Option<int> {
    if 0 <= pos && pos + 6 <= s.len() && s[pos] == '@' && s[pos + 1] == 'C' && s[pos + 2] == 'L'
        && s[pos + 3] == 'A' && s[pos + 4] == 'S' && s[pos + 5] == 'S' {
        Some(pos + 6)
    } else {
        None
    }
}

/// Whether every character of `t` is a decimal digit.
pub open spec fn all_digits(t: Seq<char>) -> bool {
    forall|i: int| 0 <= i < t.len() ==> is_digit_char(#[trigger] t[i])
}

/// The numeric value of one digit.
pub open spec fn digit_of(c: char) -> int {
    c as int - '0' as int
}

/// The value of a digit string read in base ten.
pub open spec fn digits_val(t: Seq<char>) -> int
    decreases t.len(),
{
    if t.len() == 0 {
        0
    } else {
        digits_val(t.drop_last()) * 10 + digit_of(t.last())
    }
}

pub proof fn lemma_digits_val_nonneg(t: Seq<char>)
    requires
        all_digits(t),
    ensures
        digits_val(t) >= 0,
    decreases t.len(),
{
    if t.len() > 0 {
        assert(all_digits(t.drop_last()));
        lemma_digits_val_nonneg(t.drop_last());
    }
}

/// A longer digit string never has a smaller value than its prefix.
pub proof fn lemma_digits_val_prefix(t: Seq<char>, i: int)
    requires
        all_digits(t),
        0 <= i <= t.len(),
    ensures
        digits_val(t.take(i)) <= digits_val(t),
    decreases t.len(),
{
    if i == t.len() {
        assert(t.take(i) =~= t);
    } else {
        let d = t.drop_last();
        assert(all_digits(d));
        assert(t.take(i) =~= d.take(i));
        lemma_digits_val_prefix(d, i);
        lemma_digits_val_nonneg(d);
    }
}

/// The 32-bit signed value of an integer token drawn from `[0-9-]+`: an
/// optional leading minus, then one or more digits, no other characters, and
/// a value within the 32-bit two's-complement range.
pub open spec fn spec_i32_of(t: Seq<char>) -> Option<int> {
    if t.len() > 0 && t[0] == '-' {
        let d = t.subrange(1, t.len() as int);
        if d.len() > 0 && all_digits(d) && digits_val(d) <= 0x8000_0000 {
            Some(-digits_val(d))
        } else {
            None
        }
    } else {
        if t.len() > 0 && all_digits(t) && digits_val(t) <= 0x7fff_ffff {
            Some(digits_val(t))
        } else {
            None
        }
    }
}

/// Reads `v[start..end]` as an unsigned decimal value, stopping as soon as
/// the value passes 0x8000_0000 (no 32-bit integer can be reached then).
fn parse_digits_value(v: &Vec<char>, start: usize, end: usize) -> (r: Option<u64>)
    requires
        start <= end <= v@.len(),
    ensures
        r matches Some(acc) ==> all_digits(v@.subrange(start as int, end as int)) && acc
            == digits_val(v@.subrange(start as int, end as int)) && acc <= 0x8000_0000,
        r is None ==> !all_digits(v@.subrange(start as int, end as int)) || digits_val(
            v@.subrange(start as int, end as int),
        ) > 0x8000_0000,
{
    let ghost whole = v@.subrange(start as int, end as int);
    let mut acc: u64 = 0;
    let mut i = start;
    while i < end
        invariant
            start <= i <= end <= v@.len(),
            whole == v@.subrange(start as int, end as int),
            all_digits(v@.subrange(start as int, i as int)),
            acc == digits_val(v@.subrange(start as int, i as int)),
            acc <= 0x8000_0000,
        decreases end - i,
    {
        let c = v[i];
        if !is_digit_exec(c) {
            proof {
                assert(whole[i - start] == v@[i as int]);
            }
            return None;
        }
        let d: u64 = (c as u32 - '0' as u32) as u64;
        proof {
            assert(is_digit_char(v@[i as int]));
            assert(d == digit_of(v@[i as int]));
            assert(v@.subrange(start as int, i + 1).drop_last() =~= v@.subrange(
                start as int,
                i as int,
            ));
            assert(v@.subrange(start as int, i + 1).last() == v@[i as int]);
        }
        acc = acc * 10 + d;
        let ghost prefix = v@.subrange(start as int, i + 1);
        proof {
            assert(acc == digits_val(prefix));
            assert(all_digits(prefix));
        }
        if acc > 0x8000_0000 {
            proof {
                if all_digits(whole) {
                    assert(whole.take(i + 1 - start) =~= prefix);
                    lemma_digits_val_prefix(whole, i + 1 - start);
                }
            }
            return None;
        }
        i = i + 1;
    }
    proof {
        assert(v@.subrange(start as int, i as int) =~= whole);
    }
    Some(acc)
}

/// Reads `v[start..end]` as a signed 32-bit integer token.
fn parse_i32_token(v: &Vec<char>, start: usize, end: usize) -> (r: Option<i32>)
    requires
        start <= end <= v@.len(),
    ensures
        match spec_i32_of(v@.subrange(start as int, end as int)) {
            Some(val) => r matches Some(x) && x as int == val,
            None => r is None,
        },
{
    let ghost t = v@.subrange(start as int, end as int);
    if start == end {
        return None;
    }
    if v[start] == '-' {
        let ghost d = t.subrange(1, t.len() as int);
        proof {
            assert(d =~= v@.subrange(start + 1, end as int));
        }
        if start + 1 == end {
            return None;
        }
        match parse_digits_value(v, start + 1, end) {
            Some(acc) => {
                proof {
                    lemma_digits_val_nonneg(d);
                }
                Some((-(acc as i64)) as i32)
            },
            None => None,
        }
    } else {
        proof {
            assert(t[0] == v@[start as int]);
            assert(t =~= v@.subrange(start as int, end as int));
        }
        match parse_digits_value(v, start, end) {
            Some(acc) => {
                if acc > 0x7fff_ffff {
                    None
                } else {
                    proof {
                        lemma_digits_val_nonneg(t);
                    }
                    Some(acc as i32)
                }
            },
            None => None,
        }
    }
}

/// Consuming an integer token: its value and the position after it, or
/// `None` if no token starts here or the token is not a valid 32-bit
/// integer.
pub open spec fn spec_int_token(s: Seq<char>, pos: int) -> Option<(int, int)> {
    if 0 <= pos < s.len() && is_num_char(s[pos]) {
        let e = num_end(s, pos);
        match spec_i32_of(s.subrange(pos, e)) {
            Some(val) => Some((val, e)),
            None => None,
        }
    } else {
        None
    }
}

fn int_token_exec(v: &Vec<char>, pos: usize) -> (r: Option<(i32, usize)>)
    requires
        pos <= v@.len(),
    ensures
        r matches Some(p) ==> spec_int_token(v@, pos as int) == Some((p.0 as int, p.1 as int))
            && pos < p.1 <= v@.len(),
        r is None ==> spec_int_token(v@, pos as int) is None,
{
    if pos < v.len() && is_num_exec(v[pos]) {
        let e = num_end_exec(v, pos);
        proof {
            assert(num_end(v@, pos as int) == num_end(v@, pos + 1));
        }
        match parse_i32_token(v, pos, e) {
            Some(x) => Some((x, e)),
            None => None,
        }
    } else {
        None
    }
}

/// The characters of `s`, for position-indexed parsing.
fn to_chars(s: &str) -> (r: Vec<char>)
    ensures
        r@ == s@,
{
    let n = s.unicode_len();
    let mut r: Vec<char> = Vec::new();
    let mut i: usize = 0;
    while i < n
        invariant
            n == s@.len(),
            i <= n,
            r@ == s@.take(i as int),
        decreases n - i,
    {
        r.push(s.get_char(i));
        proof {
            assert(r@ =~= s@.take(i + 1));
        }
        i = i + 1;
    }
    proof {
        assert(s@.take(n as int) =~= s@);
    }
    r
}

fn is_ws_exec(c: char) -> (r: bool)
    ensures
        r == is_ws_char(c),
{
    c == ' ' || c == '\t' || c == '\n'
}

fn is_ident_exec(c: char) -> (r: bool)
    ensures
        r == is_ident_char(c),
{
    ('a' <= c && c <= 'z') || ('A' <= c && c <= 'Z') || ('0' <= c && c <= '9') || c == '_' || c
        == '-'
}

fn is_digit_exec(c: char) -> (r: bool)
    ensures
        r == is_digit_char(c),
{
    '0' <= c && c <= '9'
}

fn is_num_exec(c: char) -> (r: bool)
    ensures
        r == is_num_char(c),
{
    ('0' <= c && c <= '9') || c == '-'
}

fn ws_end_exec(v: &Vec<char>, pos: usize) -> (r: usize)
    requires
        pos <= v@.len(),
    ensures
        r == ws_end(v@, pos as int),
        pos <= r <= v@.len(),
{
    let mut i = pos;
    while i < v.len() && is_ws_exec(v[i])
        invariant
            pos <= i <= v@.len(),
            ws_end(v@, pos as int) == ws_end(v@, i as int),
        decreases v@.len() - i,
    {
        i = i + 1;
    }
    i
}

fn ident_end_exec(v: &Vec<char>, pos: usize) -> (r: usize)
    requires
        pos <= v@.len(),
    ensures
        r == ident_end(v@, pos as int),
        pos <= r <= v@.len(),
{
    let mut i = pos;
    while i < v.len() && is_ident_exec(v[i])
        invariant
            pos <= i <= v@.len(),
            ident_end(v@, pos as int) == ident_end(v@, i as int),
        decreases v@.len() - i,
    {
        i = i + 1;
    }
    i
}

fn num_end_exec(v: &Vec<char>, pos: usize) -> (r: usize)
    requires
        pos <= v@.len(),
    ensures
        r == num_end(v@, pos as int),
        pos <= r <= v@.len(),
{
    let mut i = pos;
    while i < v.len() && is_num_exec(v[i])
        invariant
            pos <= i <= v@.len(),
            num_end(v@, pos as int) == num_end(v@, i as int),
        decreases v@.len() - i,
    {
        i = i + 1;
    }
    i
}

fn ws1_exec(v: &Vec<char>, pos: usize) -> (r: Option<usize>)
    requires
        pos <= v@.len(),
    ensures
        r matches Some(e) ==> spec_ws1(v@, pos as int) == Some(e as int) && pos < e <= v@.len(),
        r is None ==> spec_ws1(v@, pos as int) is None,
{
    if pos < v.len() && is_ws_exec(v[pos]) {
        let e = ws_end_exec(v, pos + 1);
        proof {
            assert(ws_end(v@, pos as int) == ws_end(v@, pos + 1));
        }
        Some(e)
    } else {
        None
    }
}

fn ident_exec(v: &Vec<char>, pos: usize) -> (r: Option<usize>)
    requires
        pos <= v@.len(),
    ensures
        r matches Some(e) ==> spec_ident(v@, pos as int) == Some(e as int) && pos < e <= v@.len(),
        r is None ==> spec_ident(v@, pos as int) is None,
{
    if pos < v.len() && is_ident_exec(v[pos]) {
        let e = ident_end_exec(v, pos + 1);
        proof {
            assert(ident_end(v@, pos as int) == ident_end(v@, pos + 1));
        }
        Some(e)
    } else {
        None
    }
}

fn tag3_exec(v: &Vec<char>, pos: usize, c0: char, c1: char, c2: char) -> (r: Option<usize>)
    requires
        pos <= v@.len(),
    ensures
        r matches Some(e) ==> spec_tag3(v@, pos as int, c0, c1, c2) == Some(e as int) && pos < e
            <= v@.len(),
        r is None ==> spec_tag3(v@, pos as int, c0, c1, c2) is None,
{
    if v.len() - pos >= 3 && v[pos] == c0 && v[pos + 1] == c1 && v[pos + 2] == c2 {
        Some(pos + 3)
    } else {
        None
    }
}

fn tag1_exec(v: &Vec<char>, pos: usize, c0: char) -> (r: Option<usize>)
    requires
        pos <= v@.len(),
    ensures
        r matches Some(e) ==> spec_tag1(v@, pos as int, c0) == Some(e as int) && pos < e
            <= v@.len(),
        r is None ==> spec_tag1(v@, pos as int, c0) is None,
{
    if pos < v.len() && v[pos] == c0 {
        Some(pos + 1)
    } else {
        None
    }
}

fn tag_class_exec(v: &Vec<char>, pos: usize) -> (r: Option<usize>)
    requires
        pos <= v@.len(),
    ensures
        r matches Some(e) ==> spec_tag_class(v@, pos as int) == Some(e as int) && pos < e
            <= v@.len(),
        r is None ==> spec_tag_class(v@, pos as int) is None,
{
    if v.len() - pos >= 6 && v[pos] == '@' && v[pos + 1] == 'C' && v[pos + 2] == 'L' && v[pos + 3]
        == 'A' && v[pos + 4] == 'S' && v[pos + 5] == 'S' {
        Some(pos + 6)
    } else {
        None
    }
}

/// A template mapping statement: `MAP <driver data name> <constant name>
/// [OPT] .`
#[derive(Debug)]
pub struct MapStatement {
    pub driver_data_name: String,
    pub const_name: String,
    pub opt: bool,
}

/// The mathematical content of a `MapStatement`.
pub ghost struct MapV {
    pub driver_data_name: Seq<char>,
    pub const_name: Seq<char>,
    pub opt: bool,
}

impl View for MapStatement {
    type V = MapV;

    open spec fn view(&self) -> MapV {
        MapV {
            driver_data_name: self.driver_data_name@,
            const_name: self.const_name@,
            opt: self.opt,
        }
    }
}

/// A driver-data binding statement: `DEF <name> <signed integer> .`
#[derive(Debug)]
pub struct DefineStatement {
    pub name: String,
    pub id: i32,
}

/// The mathematical content of a `DefineStatement`.
pub ghost struct DefV {
    pub name: Seq<char>,
    pub id: int,
}

impl View for DefineStatement {
    type V = DefV;

    open spec fn view(&self) -> DefV {
        DefV { name: self.name@, id: self.id as int }
    }
}

/// A parsed template: the class name and its mapping statements in input
/// order.
#[derive(Debug)]
pub struct Template {
    pub class_name: String,
    pub maps: Vec<MapStatement>,
}

/// The mathematical content of a `Template`.
pub ghost struct TemplateV {
    pub class_name: Seq<char>,
    pub maps: Seq<MapV>,
}

impl View for Template {
    type V = TemplateV;

    open spec fn view(&self) -> TemplateV {
        TemplateV {
            class_name: self.class_name@,
            maps: self.maps@.map_values(|m: MapStatement| m@),
        }
    }
}

/// The optional ` OPT` flag of a mapping statement; consumes nothing when
/// absent.
pub open spec fn spec_opt_flag(s: Seq<char>, pos: int) -> (bool, int) {
    match spec_ws1(s, pos) {
        Some(q) => match spec_tag3(s, q, 'O', 'P', 'T') {
            Some(q2) => (true, q2),
            None => (false, pos),
        },
        None => (false, pos),
    }
}

/// One mapping statement starting at `pos`: the statement and the position
/// after its closing dot.
pub open spec fn spec_map_stmt(s: Seq<char>, pos: int) -> Option<(MapV, int)> {
    match spec_tag3(s, pos, 'M', 'A', 'P') {
        None => None,
        Some(p1) => match spec_ws1(s, p1) {
            None => None,
            Some(p2) => match spec_ident(s, p2) {
                None => None,
                Some(p3) => match spec_ws1(s, p3) {
                    None => None,
                    Some(p4) => match spec_ident(s, p4) {
                        None => None,
                        Some(p5) => {
                            let flag = spec_opt_flag(s, p5);
                            let p6 = ws_end(s, flag.1);
                            match spec_tag1(s, p6, '.') {
                                None => None,
                                Some(p7) => Some(
                                    (
                                        MapV {
                                            driver_data_name: s.subrange(p2, p3),
                                            const_name: s.subrange(p4, p5),
                                            opt: flag.0,
                                        },
                                        p7,
                                    ),
                                ),
                            }
                        },
                    },
                },
            },
        },
    }
}

/// The class statement starting at `pos`: the class name and the position
/// after its closing dot.
pub open spec fn spec_class_stmt(s: Seq<char>, pos: int) -> Option<(Seq<char>, int)> {
    match spec_tag_class(s, pos) {
        None => None,
        Some(p1) => match spec_ws1(s, p1) {
            None => None,
            Some(p2) => match spec_ident(s, p2) {
                None => None,
                Some(p3) => {
                    let p4 = ws_end(s, p3);
                    match spec_tag1(s, p4, '.') {
                        None => None,
                        Some(p5) => Some((s.subrange(p2, p3), p5)),
                    }
                },
            },
        },
    }
}

/// One binding statement starting at `pos`: the binding and the position
/// after its closing dot.
pub open spec fn spec_def_stmt(s: Seq<char>, pos: int) -> Option<(DefV, int)> {
    match spec_tag3(s, pos, 'D', 'E', 'F') {
        None => None,
        Some(p1) => match spec_ws1(s, p1) {
            None => None,
            Some(p2) => match spec_ident(s, p2) {
                None => None,
                Some(p3) => match spec_ws1(s, p3) {
                    None => None,
                    Some(p4) => match spec_int_token(s, p4) {
                        None => None,
                        Some(tok) => {
                            let p5 = ws_end(s, tok.1);
                            match spec_tag1(s, p5, '.') {
                                None => None,
                                Some(p6) => Some(
                                    (DefV { name: s.subrange(p2, p3), id: tok.0 }, p6),
                                ),
                            }
                        },
                    },
                },
            },
        },
    }
}

fn opt_flag_exec(v: &Vec<char>, pos: usize) -> (r: (bool, usize))
    requires
        pos <= v@.len(),
    ensures
        spec_opt_flag(v@, pos as int) == (r.0, r.1 as int),
        pos <= r.1 <= v@.len(),
{
    match ws1_exec(v, pos) {
        Some(q) => {
            match tag3_exec(v, q, 'O', 'P', 'T') {
                Some(q2) => (true, q2),
                None => (false, pos),
            }
        },
        None => (false, pos),
    }
}

fn parse_map_statement(s: &str, v: &Vec<char>, pos: usize) -> (r: Option<(MapStatement, usize)>)
    requires
        v@ == s@,
        pos <= v@.len(),
    ensures
        r matches Some(p) ==> spec_map_stmt(v@, pos as int) == Some((p.0@, p.1 as int)) && pos < p.1
            <= v@.len(),
        r is None ==> spec_map_stmt(v@, pos as int) is None,
{
    let p1 = match tag3_exec(v, pos, 'M', 'A', 'P') {
        Some(p) => p,
        None => {
            return None;
        },
    };
    let p2 = match ws1_exec(v, p1) {
        Some(p) => p,
        None => {
            return None;
        },
    };
    let p3 = match ident_exec(v, p2) {
        Some(p) => p,
        None => {
            return None;
        },
    };
    let p4 = match ws1_exec(v, p3) {
        Some(p) => p,
        None => {
            return None;
        },
    };
    let p5 = match ident_exec(v, p4) {
        Some(p) => p,
        None => {
            return None;
        },
    };
    let flag = opt_flag_exec(v, p5);
    let p6 = ws_end_exec(v, flag.1);
    let p7 = match tag1_exec(v, p6, '.') {
        Some(p) => p,
        None => {
            return None;
        },
    };
    let driver = String::from_str(s.substring_char(p2, p3));
    let konst = String::from_str(s.substring_char(p4, p5));
    Some((MapStatement { driver_data_name: driver, const_name: konst, opt: flag.0 }, p7))
}

fn parse_class_statement(s: &str, v: &Vec<char>, pos: usize) -> (r: Option<(String, usize)>)
    requires
        v@ == s@,
        pos <= v@.len(),
    ensures
        r matches Some(p) ==> spec_class_stmt(v@, pos as int) == Some((p.0@, p.1 as int)) && pos
            < p.1 <= v@.len(),
        r is None ==> spec_class_stmt(v@, pos as int) is None,
{
    let p1 = match tag_class_exec(v, pos) {
        Some(p) => p,
        None => {
            return None;
        },
    };
    let p2 = match ws1_exec(v, p1) {
        Some(p) => p,
        None => {
            return None;
        },
    };
    let p3 = match ident_exec(v, p2) {
        Some(p) => p,
        None => {
            return None;
        },
    };
    let p4 = ws_end_exec(v, p3);
    let p5 = match tag1_exec(v, p4, '.') {
        Some(p) => p,
        None => {
            return None;
        },
    };
    Some((String::from_str(s.substring_char(p2, p3)), p5))
}

fn parse_define_statement(s: &str, v: &Vec<char>, pos: usize) -> (r: Option<(DefineStatement, usize)>)
    requires
        v@ == s@,
        pos <= v@.len(),
    ensures
        r matches Some(p) ==> spec_def_stmt(v@, pos as int) == Some((p.0@, p.1 as int)) && pos
            < p.1 <= v@.len(),
        r is None ==> spec_def_stmt(v@, pos as int) is None,
{
    let p1 = match tag3_exec(v, pos, 'D', 'E', 'F') {
        Some(p) => p,
        None => {
            return None;
        },
    };
    let p2 = match ws1_exec(v, p1) {
        Some(p) => p,
        None => {
            return None;
        },
    };
    let p3 = match ident_exec(v, p2) {
        Some(p) => p,
        None => {
            return None;
        },
    };
    let p4 = match ws1_exec(v, p3) {
        Some(p) => p,
        None => {
            return None;
        },
    };
    let tok = match int_token_exec(v, p4) {
        Some(t) => t,
        None => {
            return None;
        },
    };
    let p5 = ws_end_exec(v, tok.1);
    let p6 = match tag1_exec(v, p5, '.') {
        Some(p) => p,
        None => {
            return None;
        },
    };
    Some((DefineStatement { name: String::from_str(s.substring_char(p2, p3)), id: tok.0 }, p6))
}

pub proof fn lemma_opt_flag_bounds(s: Seq<char>, pos: int)
    requires
        0 <= pos <= s.len(),
    ensures
        pos <= spec_opt_flag(s, pos).1 <= s.len(),
{
    match spec_ws1(s, pos) {
        Some(q) => {
            lemma_ws_end_bounds(s, pos);
        },
        None => {},
    }
}

/// A successful mapping statement consumes at least one character and stops
/// within the input.
pub proof fn lemma_map_stmt_progress(s: Seq<char>, pos: int)
    requires
        0 <= pos <= s.len(),
    ensures
        spec_map_stmt(s, pos) matches Some(p) ==> pos < p.1 <= s.len(),
{
    match spec_tag3(s, pos, 'M', 'A', 'P') {
        None => {},
        Some(p1) => match spec_ws1(s, p1) {
            None => {},
            Some(p2) => {
                lemma_ws_end_bounds(s, p1);
                match spec_ident(s, p2) {
                    None => {},
                    Some(p3) => {
                        lemma_ident_end_bounds(s, p2);
                        match spec_ws1(s, p3) {
                            None => {},
                            Some(p4) => {
                                lemma_ws_end_bounds(s, p3);
                                match spec_ident(s, p4) {
                                    None => {},
                                    Some(p5) => {
                                        lemma_ident_end_bounds(s, p4);
                                        lemma_opt_flag_bounds(s, p5);
                                        lemma_ws_end_bounds(s, spec_opt_flag(s, p5).1);
                                    },
                                }
                            },
                        }
                    },
                }
            },
        },
    }
}

/// A successful binding statement consumes at least one character and stops
/// within the input.
pub proof fn lemma_def_stmt_progress(s: Seq<char>, pos: int)
    requires
        0 <= pos <= s.len(),
    ensures
        spec_def_stmt(s, pos) matches Some(p) ==> pos < p.1 <= s.len(),
{
    match spec_tag3(s, pos, 'D', 'E', 'F') {
        None => {},
        Some(p1) => match spec_ws1(s, p1) {
            None => {},
            Some(p2) => {
                lemma_ws_end_bounds(s, p1);
                match spec_ident(s, p2) {
                    None => {},
                    Some(p3) => {
                        lemma_ident_end_bounds(s, p2);
                        match spec_ws1(s, p3) {
                            None => {},
                            Some(p4) => {
                                lemma_ws_end_bounds(s, p3);
                                match spec_int_token(s, p4) {
                                    None => {},
                                    Some(tok) => {
                                        lemma_num_end_bounds(s, p4);
                                        lemma_ws_end_bounds(s, tok.1);
                                    },
                                }
                            },
                        }
                    },
                }
            },
        },
    }
}

/// As many mapping statements as parse from `pos`, each followed by optional
/// whitespace, and the position where statement parsing stopped.
pub open spec fn spec_map_stmts(s: Seq<char>, pos: int) -> (Seq<MapV>, int)
    decreases s.len() - pos,
    when 0 <= pos <= s.len()
    via spec_map_stmts_decreases
{
    match spec_map_stmt(s, pos) {
        None => (Seq::empty(), pos),
        Some(p) => {
            let rest = spec_map_stmts(s, ws_end(s, p.1));
            (seq![p.0] + rest.0, rest.1)
        },
    }
}

#[via_fn]
proof fn spec_map_stmts_decreases(s: Seq<char>, pos: int) {
    lemma_map_stmt_progress(s, pos);
    match spec_map_stmt(s, pos) {
        Some(p) => {
            lemma_ws_end_bounds(s, p.1);
        },
        None => {},
    }
}

/// As many binding statements as parse from `pos`, each followed by optional
/// whitespace, and the position where statement parsing stopped.
pub open spec fn spec_def_stmts(s: Seq<char>, pos: int) -> (Seq<DefV>, int)
    decreases s.len() - pos,
    when 0 <= pos <= s.len()
    via spec_def_stmts_decreases
{
    match spec_def_stmt(s, pos) {
        None => (Seq::empty(), pos),
        Some(p) => {
            let rest = spec_def_stmts(s, ws_end(s, p.1));
            (seq![p.0] + rest.0, rest.1)
        },
    }
}

#[via_fn]
proof fn spec_def_stmts_decreases(s: Seq<char>, pos: int) {
    lemma_def_stmt_progress(s, pos);
    match spec_def_stmt(s, pos) {
        Some(p) => {
            lemma_ws_end_bounds(s, p.1);
        },
        None => {},
    }
}

fn parse_map_statements(s: &str, v: &Vec<char>, pos: usize) -> (r: (Vec<MapStatement>, usize))
    requires
        v@ == s@,
        pos <= v@.len(),
    ensures
        r.0@.map_values(|m: MapStatement| m@) == spec_map_stmts(v@, pos as int).0,
        r.1 as int == spec_map_stmts(v@, pos as int).1,
        pos <= r.1 <= v@.len(),
    decreases v@.len() - pos,
{
    match parse_map_statement(s, v, pos) {
        None => {
            let empty: Vec<MapStatement> = Vec::new();
            proof {
                assert(empty@.map_values(|m: MapStatement| m@) =~= Seq::<MapV>::empty());
            }
            (empty, pos)
        },
        Some((m, e)) => {
            let e2 = ws_end_exec(v, e);
            let (mut rest, end) = parse_map_statements(s, v, e2);
            let ghost rv = rest@;
            rest.insert(0, m);
            proof {
                assert(rest@.map_values(|mm: MapStatement| mm@) =~= seq![m@] + rv.map_values(
                    |mm: MapStatement| mm@,
                ));
            }
            (rest, end)
        },
    }
}

fn parse_define_statements(s: &str, v: &Vec<char>, pos: usize) -> (r: (Vec<DefineStatement>, usize))
    requires
        v@ == s@,
        pos <= v@.len(),
    ensures
        r.0@.map_values(|d: DefineStatement| d@) == spec_def_stmts(v@, pos as int).0,
        r.1 as int == spec_def_stmts(v@, pos as int).1,
        pos <= r.1 <= v@.len(),
    decreases v@.len() - pos,
{
    match parse_define_statement(s, v, pos) {
        None => {
            let empty: Vec<DefineStatement> = Vec::new();
            proof {
                assert(empty@.map_values(|d: DefineStatement| d@) =~= Seq::<DefV>::empty());
            }
            (empty, pos)
        },
        Some((d, e)) => {
            let e2 = ws_end_exec(v, e);
            let (mut rest, end) = parse_define_statements(s, v, e2);
            let ghost rv = rest@;
            rest.insert(0, d);
            proof {
                assert(rest@.map_values(|dd: DefineStatement| dd@) =~= seq![d@] + rv.map_values(
                    |dd: DefineStatement| dd@,
                ));
            }
            (rest, end)
        },
    }
}

/// A parse failure: the input from the first position that could not be
/// consumed as a further statement.
#[derive(Debug)]
pub struct ParseError {
    pub remainder: String,
}

/// The whole template text: optional whitespace, the class statement,
/// optional whitespace, then mapping statements to the end of the input.
pub open spec fn spec_template(s: Seq<char>) -> Result<TemplateV, int> {
    let p0 = ws_end(s, 0);
    match spec_class_stmt(s, p0) {
        None => Err(p0),
        Some(c) => {
            let r = spec_map_stmts(s, ws_end(s, c.1));
            if r.1 == s.len() {
                Ok(TemplateV { class_name: c.0, maps: r.0 })
            } else {
                Err(r.1)
            }
        },
    }
}

/// The whole driver-data text: optional whitespace, then binding statements
/// to the end of the input.
pub open spec fn spec_driver_data(s: Seq<char>) -> Result<Seq<DefV>, int> {
    let r = spec_def_stmts(s, ws_end(s, 0));
    if r.1 == s.len() {
        Ok(r.0)
    } else {
        Err(r.1)
    }
}

/// Statement parsing stops within the input, at a position where no further
/// mapping statement starts.
pub proof fn lemma_map_stmts_stop(s: Seq<char>, pos: int)
    requires
        0 <= pos <= s.len(),
    ensures
        pos <= spec_map_stmts(s, pos).1 <= s.len(),
        spec_map_stmt(s, spec_map_stmts(s, pos).1) is None,
    decreases s.len() - pos,
{
    lemma_map_stmt_progress(s, pos);
    match spec_map_stmt(s, pos) {
        None => {},
        Some(p) => {
            lemma_ws_end_bounds(s, p.1);
            lemma_map_stmts_stop(s, ws_end(s, p.1));
        },
    }
}

/// Statement parsing stops within the input, at a position where no further
/// binding statement starts.
pub proof fn lemma_def_stmts_stop(s: Seq<char>, pos: int)
    requires
        0 <= pos <= s.len(),
    ensures
        pos <= spec_def_stmts(s, pos).1 <= s.len(),
        spec_def_stmt(s, spec_def_stmts(s, pos).1) is None,
    decreases s.len() - pos,
{
    lemma_def_stmt_progress(s, pos);
    match spec_def_stmt(s, pos) {
        None => {},
        Some(p) => {
            lemma_ws_end_bounds(s, p.1);
            lemma_def_stmts_stop(s, ws_end(s, p.1));
        },
    }
}

/// Law: grammar totality for templates. The parse is accepted exactly when
/// greedy statement parsing after the class statement reaches the end of the
/// input; any trailing text that does not start a further mapping statement
/// makes the parse fail, with the remainder starting at the boundary of the
/// longest valid prefix.
pub proof fn lemma_template_totality(s: Seq<char>)
    ensures
        spec_template(s) is Ok <==> (spec_class_stmt(s, ws_end(s, 0)) matches Some(c)
            && spec_map_stmts(s, ws_end(s, c.1)).1 == s.len()),
        spec_template(s) matches Err(p) ==> match spec_class_stmt(s, ws_end(s, 0)) {
            None => p == ws_end(s, 0),
            Some(c) => {
                &&& p == spec_map_stmts(s, ws_end(s, c.1)).1
                &&& p < s.len()
                &&& spec_map_stmt(s, p) is None
            },
        },
{
    lemma_ws_end_bounds(s, 0);
    match spec_class_stmt(s, ws_end(s, 0)) {
        None => {},
        Some(c) => {
            lemma_class_stmt_bounds(s, ws_end(s, 0));
            lemma_ws_end_bounds(s, c.1);
            lemma_map_stmts_stop(s, ws_end(s, c.1));
        },
    }
}

/// A successful class statement stops within the input.
pub proof fn lemma_class_stmt_bounds(s: Seq<char>, pos: int)
    requires
        0 <= pos <= s.len(),
    ensures
        spec_class_stmt(s, pos) matches Some(c) ==> pos < c.1 <= s.len(),
{
    match spec_tag_class(s, pos) {
        None => {},
        Some(p1) => match spec_ws1(s, p1) {
            None => {},
            Some(p2) => {
                lemma_ws_end_bounds(s, p1);
                match spec_ident(s, p2) {
                    None => {},
                    Some(p3) => {
                        lemma_ident_end_bounds(s, p2);
                        lemma_ws_end_bounds(s, p3);
                    },
                }
            },
        },
    }
}

/// Law: grammar totality for driver data. The parse is accepted exactly when
/// greedy statement parsing reaches the end of the input; any trailing text
/// that does not start a further binding statement makes the parse fail,
/// with the remainder starting at the boundary of the longest valid prefix.
pub proof fn lemma_driver_data_totality(s: Seq<char>)
    ensures
        spec_driver_data(s) is Ok <==> spec_def_stmts(s, ws_end(s, 0)).1 == s.len(),
        spec_driver_data(s) matches Err(p) ==> {
            &&& p == spec_def_stmts(s, ws_end(s, 0)).1
            &&& p < s.len()
            &&& spec_def_stmt(s, p) is None
        },
{
    lemma_ws_end_bounds(s, 0);
    lemma_def_stmts_stop(s, ws_end(s, 0));
}

/// Parses a template. The whole input must be consumed: an `Err` carries
/// exactly the unconsumed remainder.
pub fn parse_template(s: &str) -> (r: Result<Template, ParseError>)
    ensures
        match spec_template(s@) {
            Ok(tv) => r matches Ok(t) && t@ == tv,
            Err(p) => r matches Err(e) && e.remainder@ == s@.subrange(p, s@.len() as int),
        },
{
    let v = to_chars(s);
    let n = v.len();
    let p0 = ws_end_exec(&v, 0);
    match parse_class_statement(s, &v, p0) {
        None => {
            Err(ParseError { remainder: String::from_str(s.substring_char(p0, n)) })
        },
        Some((class_name, p1)) => {
            let p2 = ws_end_exec(&v, p1);
            let (maps, end) = parse_map_statements(s, &v, p2);
            if end == n {
                Ok(Template { class_name, maps })
            } else {
                Err(ParseError { remainder: String::from_str(s.substring_char(end, n)) })
            }
        },
    }
}

/// Parses a driver-data file. The whole input must be consumed: an `Err`
/// carries exactly the unconsumed remainder.
pub fn parse_driver_data(s: &str) -> (r: Result<Vec<DefineStatement>, ParseError>)
    ensures
        match spec_driver_data(s@) {
            Ok(dv) => r matches Ok(d) && d@.map_values(|dd: DefineStatement| dd@) == dv,
            Err(p) => r matches Err(e) && e.remainder@ == s@.subrange(p, s@.len() as int),
        },
{
    let v = to_chars(s);
    let n = v.len();
    let p0 = ws_end_exec(&v, 0);
    let (defs, end) = parse_define_statements(s, &v, p0);
    if end == n {
        Ok(defs)
    } else {
        Err(ParseError { remainder: String::from_str(s.substring_char(end, n)) })
    }
}

} // verus!

