use std::collections::VecDeque;

use vstd::prelude::*;

verus! {

/// One machine instruction.
///
/// A `Noop` takes a single processor cycle and has no effect.  An
/// `Addx(delta)` takes two cycles; `delta` is added to the register only
/// when its second cycle completes.  The latencies themselves live in
/// [`latency`]; the execution engine realises them.
#[derive(Debug, Clone, Copy, PartialEq, Eq, Structural)]
pub enum Instruction {
    Noop,
    Addx(isize),
}

/// The number of cycles an instruction occupies the processor.
pub open spec fn latency(i: Instruction) -> nat {
    match i {
        Instruction::Noop => 1,
        Instruction::Addx(_) => 2,
    }
}

/// `c` is a decimal digit.
pub open spec fn is_digit(c: char) -> bool {
    48 <= c as u32 <= 57
}

/// The numeric value of the decimal digit `c`.
pub open spec fn digit_val(c: char) -> int {
    c as u32 - 48
}

/// Every character of `s` is a decimal digit.
pub open spec fn all_digits(s: Seq<char>) -> bool {
    forall|i: int| 0 <= i < s.len() ==> is_digit(s[i])
}

/// The value of a string of decimal digits, most significant first.
pub open spec fn digits_val(s: Seq<char>) -> int
    decreases s.len(),
{
    if s.len() == 0 {
        0
    } else {
        digits_val(s.drop_last()) * 10 + digit_val(s.last())
    }
}

/// `s` is a decimal integer literal: an optional sign followed by at
/// least one digit.
pub open spec fn is_int_literal(s: Seq<char>) -> bool {
    if s.len() == 0 {
        false
    } else if s[0] == '-' || s[0] == '+' {
        s.len() >= 2 && all_digits(s.drop_first())
    } else {
        all_digits(s)
    }
}

/// The value of the decimal integer literal `s`.
pub open spec fn int_literal_val(s: Seq<char>) -> int
    recommends
        is_int_literal(s),
{
    if s.len() > 0 && s[0] == '-' {
        -digits_val(s.drop_first())
    } else if s.len() > 0 && s[0] == '+' {
        digits_val(s.drop_first())
    } else {
        digits_val(s)
    }
}

/// The line names a `Noop`: it starts with the four characters `noop`.
pub open spec fn is_noop_line(s: Seq<char>) -> bool {
    s.len() >= 4 && s[0] == 'n' && s[1] == 'o' && s[2] == 'o' && s[3] == 'p'
}

/// The operand of an `addx` line: everything after the five characters of
/// the mnemonic and its separating space.
pub open spec fn addx_operand(s: Seq<char>) -> Seq<char> {
    s.subrange(5, s.len() as int)
}

/// The line names an `Addx`: after the five leading characters, an
/// integer literal whose value the register's type can hold.
pub open spec fn is_addx_line(s: Seq<char>) -> bool {
    &&& s.len() >= 5
    &&& is_int_literal(addx_operand(s))
    &&& isize::MIN <= int_literal_val(addx_operand(s)) <= isize::MAX
}

/// The line names an instruction.  A `noop` prefix is checked first, as
/// the machine's input format prescribes.
pub open spec fn valid_line(s: Seq<char>) -> bool {
    is_noop_line(s) || is_addx_line(s)
}

/// The instruction a line names.
pub open spec fn parse_line(s: Seq<char>) -> Instruction
    recommends
        valid_line(s),
{
    if is_noop_line(s) {
        Instruction::Noop
    } else {
        Instruction::Addx(int_literal_val(addx_operand(s)) as isize)
    }
}

/// The lines of `s`: the maximal line-break-free segments.  A text of
/// `k` line breaks has exactly `k + 1` lines, so an empty text has one
/// empty line and a trailing line break opens a final empty line.
pub open spec fn split_lines(s: Seq<char>) -> Seq<Seq<char>>
    decreases s.len(),
{
    if s.len() == 0 {
        seq![Seq::<char>::empty()]
    } else if s[0] == '\n' {
        seq![Seq::<char>::empty()] + split_lines(s.drop_first())
    } else {
        let rest = split_lines(s.drop_first());
        rest.update(0, seq![s[0]] + rest[0])
    }
}

/// Every line of `s` names an instruction.
pub open spec fn valid_program(s: Seq<char>) -> bool {
    forall|i: int| 0 <= i < split_lines(s).len() ==> valid_line(#[trigger] split_lines(s)[i])
}

/// The program `s` names: one instruction per line.
pub open spec fn parse_program(s: Seq<char>) -> Seq<Instruction> {
    split_lines(s).map_values(|l: Seq<char>| parse_line(l))
}

/// A digit string's value is never negative.
pub proof fn lemma_digits_val_nonneg(s: Seq<char>)
    requires
        all_digits(s),
    ensures
        digits_val(s) >= 0,
    decreases s.len(),
{
    if s.len() > 0 {
        assert forall|i: int| 0 <= i < s.drop_last().len() implies is_digit(
            s.drop_last()[i],
        ) by {
            assert(s.drop_last()[i] == s[i]);
        }
        lemma_digits_val_nonneg(s.drop_last());
        assert(is_digit(s[s.len() - 1]));
    }
}

/// A prefix of a digit string is worth no more than the whole string.
pub proof fn lemma_digits_val_prefix(s: Seq<char>, i: int)
    requires
        all_digits(s),
        0 <= i <= s.len(),
    ensures
        0 <= digits_val(s.subrange(0, i)) <= digits_val(s),
    decreases s.len(),
{
    assert forall|k: int| 0 <= k < s.subrange(0, i).len() implies is_digit(
        s.subrange(0, i)[k],
    ) by {
        assert(s.subrange(0, i)[k] == s[k]);
    }
    lemma_digits_val_nonneg(s.subrange(0, i));
    if i == s.len() {
        assert(s.subrange(0, i) =~= s);
    } else {
        assert forall|k: int| 0 <= k < s.drop_last().len() implies is_digit(
            s.drop_last()[k],
        ) by {
            assert(s.drop_last()[k] == s[k]);
        }
        assert(s.subrange(0, i) =~= s.drop_last().subrange(0, i));
        lemma_digits_val_prefix(s.drop_last(), i);
        lemma_digits_val_nonneg(s.drop_last());
        assert(is_digit(s[s.len() - 1]));
        assert(digits_val(s) >= digits_val(s.drop_last()));
    }
}

/// A text always has at least one line.
pub proof fn lemma_split_lines_nonempty(s: Seq<char>)
    ensures
        split_lines(s).len() >= 1,
    decreases s.len(),
{
    if s.len() > 0 && s[0] != '\n' {
        lemma_split_lines_nonempty(s.drop_first());
    }
}

/// Splitting off the first line: if no line break occurs before `j` and
/// `j` is either the first line break or the end of the text, then the
/// lines of `s` are `s[..j]` followed by the lines of `s[j+1..]` — or
/// just `s` itself when the text ends without a break.
pub proof fn lemma_split_lines_first(s: Seq<char>, j: int)
    requires
        0 <= j <= s.len(),
        forall|k: int| 0 <= k < j ==> s[k] != '\n',
        j < s.len() ==> s[j] == '\n',
    ensures
        j == s.len() ==> split_lines(s) == seq![s],
        j < s.len() ==> split_lines(s) == seq![s.subrange(0, j)] + split_lines(
            s.subrange(j + 1, s.len() as int),
        ),
    decreases j,
{
    lemma_split_lines_nonempty(s);
    if j == 0 {
        if s.len() == 0 {
            assert(s =~= Seq::<char>::empty());
            assert(split_lines(s) =~= seq![s]);
        } else {
            assert(s.subrange(0, 0) =~= Seq::<char>::empty());
            assert(s.drop_first() =~= s.subrange(1, s.len() as int));
            assert(split_lines(s) =~= seq![s.subrange(0, 0)] + split_lines(
                s.subrange(1, s.len() as int),
            ));
        }
    } else {
        let d = s.drop_first();
        lemma_split_lines_nonempty(d);
        assert forall|k: int| 0 <= k < j - 1 implies d[k] != '\n' by {
            assert(d[k] == s[k + 1]);
        }
        lemma_split_lines_first(d, j - 1);
        let rest = split_lines(d);
        if j == s.len() {
            assert(rest == seq![d]);
            assert(seq![s[0]] + d =~= s);
            assert(rest.update(0, seq![s[0]] + rest[0]) =~= seq![s]);
        } else {
            assert(rest == seq![d.subrange(0, j - 1)] + split_lines(
                d.subrange(j, d.len() as int),
            ));
            assert(rest[0] == d.subrange(0, j - 1));
            assert(seq![s[0]] + d.subrange(0, j - 1) =~= s.subrange(0, j));
            assert(d.subrange(j, d.len() as int) =~= s.subrange(j + 1, s.len() as int));
            assert(rest.update(0, seq![s[0]] + rest[0]) =~= seq![s.subrange(0, j)]
                + split_lines(s.subrange(j + 1, s.len() as int)));
        }
    }
}

/// Reads the instruction a single line names.
///
/// A line starting with `noop` is a `Noop`; anything else is an `addx`
/// line whose operand starts at its sixth character.
pub fn parse_instruction(line: &str) -> (inst: Instruction)
    requires
        valid_line(line@),
    ensures
        inst == parse_line(line@),
{
    let n = line.unicode_len();
    if n >= 4 {
        if line.get_char(0) == 'n' && line.get_char(1) == 'o' && line.get_char(2) == 'o'
            && line.get_char(3) == 'p' {
            return Instruction::Noop;
        }
    }
    let ghost op = addx_operand(line@);
    let first = line.get_char(5);
    let mut i: usize = 5;
    let mut negative = false;
    if first == '-' {
        negative = true;
        i = 6;
    } else if first == '+' {
        i = 6;
    }
    let ghost start = i as int;
    let ghost body = line@.subrange(start, n as int);
    proof {
        if first == '-' || first == '+' {
            assert(op.drop_first() =~= body);
        } else {
            assert(op =~= body);
        }
        assert(all_digits(body));
        lemma_digits_val_nonneg(body);
    }
    let mut value: isize = 0;
    while i < n
        invariant
            5 <= start <= i <= n,
            n == line@.len(),
            body == line@.subrange(start, n as int),
            all_digits(body),
            negative ==> value as int == -digits_val(body.subrange(0, i - start)),
            !negative ==> value as int == digits_val(body.subrange(0, i - start)),
            negative ==> digits_val(body) <= isize::MAX as int + 1,
            !negative ==> digits_val(body) <= isize::MAX as int,
        decreases n - i,
    {
        let c = line.get_char(i);
        proof {
            assert(c == body[i - start]);
            assert(is_digit(body[i - start]));
            lemma_digits_val_prefix(body, i - start + 1);
            assert(body.subrange(0, i - start + 1).drop_last() =~= body.subrange(
                0,
                i - start,
            ));
            assert(body.subrange(0, i - start + 1).last() == body[i - start]);
            assert(digits_val(body.subrange(0, i - start + 1)) == digits_val(
                body.subrange(0, i - start),
            ) * 10 + digit_val(c));
        }
        let digit: u32 = c as u32;
        let d: isize = (digit - 48) as isize;
        if negative {
            value = value * 10 - d;
        } else {
            value = value * 10 + d;
        }
        i = i + 1;
    }
    proof {
        assert(body.subrange(0, n - start) =~= body);
        assert(value as int == int_literal_val(op));
    }
    Instruction::Addx(value)
}

/// Reads a whole program: one instruction per line of `input`.
pub fn parse_instructions(input: &str) -> (program: VecDeque<Instruction>)
    requires
        valid_program(input@),
        input@.len() < usize::MAX,
    ensures
        program@ == parse_program(input@),
{
    let n = input.unicode_len();
    let mut program: VecDeque<Instruction> = VecDeque::new();
    let mut start: usize = 0;
    proof {
        assert(input@.subrange(0, n as int) =~= input@);
        assert(parse_program(input@) =~= program@ + parse_program(input@));
    }
    while start <= n
        invariant
            start <= n + 1,
            n == input@.len(),
            n < usize::MAX,
            valid_program(input@),
            start <= n ==> {
                &&& parse_program(input@) == program@ + parse_program(
                    input@.subrange(start as int, n as int),
                )
                &&& valid_program(input@.subrange(start as int, n as int))
            },
            start > n ==> program@ == parse_program(input@),
        decreases n + 1 - start,
    {
        let ghost suffix = input@.subrange(start as int, n as int);
        let mut j: usize = start;
        while j < n && input.get_char(j) != '\n'
            invariant
                start <= j <= n,
                n == input@.len(),
                forall|k: int| start <= k < j ==> input@[k] != '\n',
            decreases n - j,
        {
            j = j + 1;
        }
        let line = input.substring_char(start, j);
        proof {
            assert forall|k: int| 0 <= k < j - start implies suffix[k] != '\n' by {
                assert(suffix[k] == input@[start + k]);
            }
            lemma_split_lines_first(suffix, j - start);
            assert(line@ =~= suffix.subrange(0, j - start));
            lemma_split_lines_nonempty(suffix);
            assert(valid_line(split_lines(suffix)[0]));
            if j - start == suffix.len() {
                assert(split_lines(suffix)[0] == suffix);
                assert(line@ =~= suffix);
            } else {
                assert(split_lines(suffix)[0] == suffix.subrange(0, j - start));
            }
        }
        let inst = parse_instruction(line);
        program.push_back(inst);
        proof {
            let done = program@;
            if j < n {
                let tail = input@.subrange(j + 1, n as int);
                assert(suffix.subrange(j - start + 1, suffix.len() as int) =~= tail);
                assert(split_lines(suffix) == seq![line@] + split_lines(tail));
                assert(parse_program(suffix) =~= seq![inst] + parse_program(tail));
                assert(parse_program(input@) =~= done + parse_program(tail));
                assert forall|k: int| 0 <= k < split_lines(tail).len() implies valid_line(
                    #[trigger] split_lines(tail)[k],
                ) by {
                    assert(split_lines(suffix)[k + 1] == split_lines(tail)[k]);
                }
            } else {
                assert(split_lines(suffix) == seq![line@]);
                assert(parse_program(suffix) =~= seq![inst]);
                assert(parse_program(input@) =~= done);
            }
        }
        start = j + 1;
    }
    program
}

} // verus!
