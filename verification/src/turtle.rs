use vstd::prelude::*;

verus! {

/// Whether the character is a hexadecimal digit.
pub open spec fn is_hex_digit(c: char) -> bool {
    (48 <= c as u32 && c as u32 <= 57) || (97 <= c as u32 && c as u32 <= 102) || (65 <= c as u32
        && c as u32 <= 70)
}

/// The value of a hexadecimal digit.
pub open spec fn hex_val(c: char) -> int {
    if 48 <= c as u32 && c as u32 <= 57 {
        c as u32 - 48
    } else if 97 <= c as u32 && c as u32 <= 102 {
        c as u32 - 87
    } else {
        c as u32 - 55
    }
}

/// Whether the number is a Unicode scalar value: not a surrogate and at
/// most the largest code point.
pub open spec fn is_scalar(v: int) -> bool {
    (0 <= v && v < 0xD800) || (0xE000 <= v && v <= 0x10FFFF)
}

/// Whether a `\u` escape with four hexadecimal digits starts at `at`.
pub open spec fn u16_escape_at(s: Seq<char>, at: int) -> bool {
    &&& 0 <= at
    &&& at + 6 <= s.len()
    &&& s[at] == '\\'
    &&& s[at + 1] == 'u'
    &&& is_hex_digit(s[at + 2])
    &&& is_hex_digit(s[at + 3])
    &&& is_hex_digit(s[at + 4])
    &&& is_hex_digit(s[at + 5])
}

/// The code point a `\u` escape at `at` denotes.
pub open spec fn u16_escape_val(s: Seq<char>, at: int) -> int {
    hex_val(s[at + 2]) * 0x1000 + hex_val(s[at + 3]) * 0x100 + hex_val(s[at + 4]) * 0x10 + hex_val(
        s[at + 5],
    )
}

/// Whether a `\U` escape with eight hexadecimal digits starts at `at`.
pub open spec fn u32_escape_at(s: Seq<char>, at: int) -> bool {
    &&& 0 <= at
    &&& at + 10 <= s.len()
    &&& s[at] == '\\'
    &&& s[at + 1] == 'U'
    &&& is_hex_digit(s[at + 2])
    &&& is_hex_digit(s[at + 3])
    &&& is_hex_digit(s[at + 4])
    &&& is_hex_digit(s[at + 5])
    &&& is_hex_digit(s[at + 6])
    &&& is_hex_digit(s[at + 7])
    &&& is_hex_digit(s[at + 8])
    &&& is_hex_digit(s[at + 9])
}

/// The code point a `\U` escape at `at` denotes.
pub open spec fn u32_escape_val(s: Seq<char>, at: int) -> int {
    hex_val(s[at + 2]) * 0x10000000 + hex_val(s[at + 3]) * 0x1000000 + hex_val(s[at + 4])
        * 0x100000 + hex_val(s[at + 5]) * 0x10000 + hex_val(s[at + 6]) * 0x1000 + hex_val(
        s[at + 7],
    ) * 0x100 + hex_val(s[at + 8]) * 0x10 + hex_val(s[at + 9])
}

/// Whether the character may stand unescaped inside an IRI reference.
pub open spec fn is_plain_iri_char(c: char) -> bool {
    c != '<' && c != '>' && c != '"' && c != '{' && c != '}' && c != '|' && c != '^' && c != '`'
        && c != '\\'
}

/// The IRI-reference body grammar, from `at` up to the closing `>`: the
/// position after the delimiter and the decoded code points, or nothing if
/// the text does not parse.
pub open spec fn spec_iri_body(s: Seq<char>, at: int) -> Option<(int, Seq<int>)>
    decreases s.len() - at when 0 <= at <= s.len()
{
    if at >= s.len() {
        None
    } else if s[at] == '>' {
        Some(((at + 1), Seq::<int>::empty()))
    } else if u16_escape_at(s, at) && is_scalar(u16_escape_val(s, at)) {
        match spec_iri_body(s, at + 6) {
            Option::None => None,
            Option::Some(tail) => Some(
                (tail.0, seq![u16_escape_val(s, at)].add(tail.1)),
            ),
        }
    } else if u32_escape_at(s, at) && is_scalar(u32_escape_val(s, at)) {
        match spec_iri_body(s, at + 10) {
            Option::None => None,
            Option::Some(tail) => Some(
                (tail.0, seq![u32_escape_val(s, at)].add(tail.1)),
            ),
        }
    } else if is_plain_iri_char(s[at]) {
        match spec_iri_body(s, at + 1) {
            Option::None => None,
            Option::Some(tail) => Some((tail.0, seq![s[at] as int].add(tail.1))),
        }
    } else {
        None
    }
}

/// The code points of a character sequence.
pub open spec fn code_points(s: Seq<char>) -> Seq<int> {
    s.map_values(|c: char| c as int)
}

/// Relies on `char::from_u32`: some character exactly for a Unicode scalar
/// value — not a surrogate, at most the largest code point — and that
/// character converts back to the same number.
#[verifier::external_body]
fn char_from_u32(v: u32) -> (r: Option<char>)
    ensures
        r matches Some(c) ==> c as int == v as int && is_scalar(v as int),
        r is None ==> !is_scalar(v as int),
{
    char::from_u32(v)
}

/// Read one hexadecimal digit.
pub fn hex_char(i: &Vec<char>, at: usize) -> (r: Option<(usize, u32)>)
    ensures
        r is Some <==> at < i@.len() && is_hex_digit(i@[at as int]) && at + 1 <= usize::MAX,
        r matches Some(p) ==> p.0 == at + 1 && p.1 == hex_val(i@[at as int]),
{
    if at >= i.len() {
        return None;
    }
    let c = i[at];
    let u = c as u32;
    if 48 <= u && u <= 57 {
        Some((at + 1, u - 48))
    } else if 97 <= u && u <= 102 {
        Some((at + 1, u - 87))
    } else if 65 <= u && u <= 70 {
        Some((at + 1, u - 55))
    } else {
        None
    }
}

/// Read a `\u` escape with four hexadecimal digits and decode it.
pub fn u16_char(i: &Vec<char>, at: usize) -> (r: Option<(usize, char)>)
    ensures
        r is Some <==> u16_escape_at(i@, at as int) && is_scalar(u16_escape_val(i@, at as int)),
        r matches Some(p) ==> p.0 == at + 6 && p.1 as int == u16_escape_val(i@, at as int),
{
    if at >= i.len() || i.len() - at < 6 {
        return None;
    }
    if i[at] != '\\' || i[at + 1] != 'u' {
        return None;
    }
    let h0 = match hex_char(i, at + 2) {
        Some(p) => p.1,
        None => {
            return None;
        },
    };
    let h1 = match hex_char(i, at + 3) {
        Some(p) => p.1,
        None => {
            return None;
        },
    };
    let h2 = match hex_char(i, at + 4) {
        Some(p) => p.1,
        None => {
            return None;
        },
    };
    let h3 = match hex_char(i, at + 5) {
        Some(p) => p.1,
        None => {
            return None;
        },
    };
    let v = h0 * 0x1000 + h1 * 0x100 + h2 * 0x10 + h3;
    match char_from_u32(v) {
        Some(c) => Some((at + 6, c)),
        None => None,
    }
}

/// Read a `\U` escape with eight hexadecimal digits and decode it.
#[verifier::rlimit(100)]
pub fn u32_char(i: &Vec<char>, at: usize) -> (r: Option<(usize, char)>)
    ensures
        r is Some <==> u32_escape_at(i@, at as int) && is_scalar(u32_escape_val(i@, at as int)),
        r matches Some(p) ==> p.0 == at + 10 && p.1 as int == u32_escape_val(i@, at as int),
{
    if at >= i.len() || i.len() - at < 10 {
        return None;
    }
    if i[at] != '\\' || i[at + 1] != 'U' {
        return None;
    }
    let h0 = match hex_char(i, at + 2) {
        Some(p) => p.1,
        None => {
            return None;
        },
    };
    let h1 = match hex_char(i, at + 3) {
        Some(p) => p.1,
        None => {
            return None;
        },
    };
    let h2 = match hex_char(i, at + 4) {
        Some(p) => p.1,
        None => {
            return None;
        },
    };
    let h3 = match hex_char(i, at + 5) {
        Some(p) => p.1,
        None => {
            return None;
        },
    };
    let h4 = match hex_char(i, at + 6) {
        Some(p) => p.1,
        None => {
            return None;
        },
    };
    let h5 = match hex_char(i, at + 7) {
        Some(p) => p.1,
        None => {
            return None;
        },
    };
    let h6 = match hex_char(i, at + 8) {
        Some(p) => p.1,
        None => {
            return None;
        },
    };
    let h7 = match hex_char(i, at + 9) {
        Some(p) => p.1,
        None => {
            return None;
        },
    };
    proof {
        assert(h0 <= 15 && h1 <= 15 && h2 <= 15 && h3 <= 15);
        assert(h4 <= 15 && h5 <= 15 && h6 <= 15 && h7 <= 15);
    }
    let v = h0 * 0x10000000 + h1 * 0x1000000 + h2 * 0x100000 + h3 * 0x10000 + h4 * 0x1000 + h5
        * 0x100 + h6 * 0x10 + h7;
    proof {
        assert(v as int == u32_escape_val(i@, at as int));
    }
    match char_from_u32(v) {
        Some(c) => Some((at + 10, c)),
        None => None,
    }
}

/// Read an IRI reference in Turtle's lexical shape: text between `<` and
/// `>`, with `\u` and `\U` escapes decoded. Angle brackets, the quote,
/// braces, pipe, caret, backtick and backslash may not stand unescaped;
/// any other character is passed through as it is. Hands back the
/// position after the closing delimiter and the decoded text.
#[verifier::loop_isolation(false)]
pub fn iriref(i: &Vec<char>, at: usize) -> (r: Option<(usize, Vec<char>)>)
    ensures
        r is Some <==> at < i@.len() && i@[at as int] == '<' && spec_iri_body(
            i@,
            at as int + 1,
        ) is Some,
        r matches Some(p) ==> {
            &&& spec_iri_body(i@, at as int + 1) matches Some(body)
            &&& p.0 == body.0
            &&& code_points(p.1@) == body.1
        },
{
    broadcast use vstd::seq_lib::group_seq_properties;

    if at >= i.len() || i[at] != '<' {
        return None;
    }
    let mut pos: usize = at + 1;
    let mut out: Vec<char> = Vec::new();
    loop
        invariant
            at + 1 <= pos <= i@.len(),
            spec_iri_body(i@, at as int + 1) == spec_append(
                code_points(out@),
                spec_iri_body(i@, pos as int),
            ),
        decreases i@.len() - pos,
    {
        if pos >= i.len() {
            proof {
                assert(spec_iri_body(i@, pos as int) is None);
            }
            return None;
        }
        let c = i[pos];
        if c == '>' {
            proof {
                assert(spec_iri_body(i@, pos as int) == Some(
                    ((pos + 1) as int, Seq::<int>::empty()),
                ));
                assert(code_points(out@).add(Seq::<int>::empty()) =~= code_points(out@));
            }
            return Some((pos + 1, out));
        }
        if c == '\\' {
            let ghost before = out@;
            match u16_char(i, pos) {
                Some(p) => {
                    out.push(p.1);
                    proof {
                        lemma_code_points_push(before, p.1);
                        lemma_append_shift(
                            code_points(before),
                            seq![u16_escape_val(i@, pos as int)],
                            spec_iri_body(i@, pos as int + 6),
                        );
                    }
                    pos = pos + 6;
                    continue ;
                },
                None => {},
            }
            match u32_char(i, pos) {
                Some(p) => {
                    out.push(p.1);
                    proof {
                        assert(!(u16_escape_at(i@, pos as int) && is_scalar(
                            u16_escape_val(i@, pos as int),
                        )));
                        lemma_code_points_push(before, p.1);
                        lemma_append_shift(
                            code_points(before),
                            seq![u32_escape_val(i@, pos as int)],
                            spec_iri_body(i@, pos as int + 10),
                        );
                    }
                    pos = pos + 10;
                    continue ;
                },
                None => {},
            }
            proof {
                assert(spec_iri_body(i@, pos as int) is None);
            }
            return None;
        }
        if c == '<' || c == '"' || c == '{' || c == '}' || c == '|' || c == '^' || c == '`' {
            proof {
                assert(spec_iri_body(i@, pos as int) is None);
            }
            return None;
        }
        let ghost before = out@;
        out.push(c);
        proof {
            assert(is_plain_iri_char(i@[pos as int]));
            assert(!u16_escape_at(i@, pos as int));
            assert(!u32_escape_at(i@, pos as int));
            lemma_code_points_push(before, c);
            lemma_append_shift(
                code_points(before),
                seq![i@[pos as int] as int],
                spec_iri_body(i@, pos as int + 1),
            );
        }
        pos = pos + 1;
    }
}

/// Splice an accumulated prefix onto a parse tail.
pub open spec fn spec_append(acc: Seq<int>, tail: Option<(int, Seq<int>)>) -> Option<
    (int, Seq<int>),
> {
    match tail {
        Option::None => None,
        Option::Some(t) => Some((t.0, acc.add(t.1))),
    }
}

/// Pushing a character appends its code point.
proof fn lemma_code_points_push(s: Seq<char>, c: char)
    ensures
        code_points(s.push(c)) =~= code_points(s).add(seq![c as int]),
{
}

/// Appending associates: gluing one decoded unit onto the accumulator and
/// then the tail is gluing the accumulator onto the unit-plus-tail.
proof fn lemma_append_shift(acc: Seq<int>, unit: Seq<int>, tail: Option<(int, Seq<int>)>)
    ensures
        spec_append(acc.add(unit), tail) == spec_append(acc, spec_append(unit, tail)),
{
    match tail {
        Option::None => {},
        Option::Some(t) => {
            assert(acc.add(unit).add(t.1) =~= acc.add(unit.add(t.1)));
        },
    }
}

} // verus!
