//! What each rule does to a base name, and the pipeline that applies rules in
//! order.
use vstd::prelude::*;
use crate::clock::{format_moment, formatted_moment, Moment};
use crate::models::{
    CaseType, Context, DateSource, Filename, FilenameModel, FilterType, Pipeline, Position, Rule,
};
use crate::text::{
    alphabetic_char, append_chars, char_uppercase, char_uppercase_of, chars_of, decimal_of,
    digit_char, ends_with, is_alphabetic, is_numeric, is_whitespace, lowercase, lowercase_of,
    numeric_char, opt_text, push_decimal, slice_chars, starts_with, text_of, uppercase,
    uppercase_of, whitespace_char,
};

verus! {

/// The text that the crate `regex` makes of `text` when every match of
/// `pattern` is replaced by `replacement` (in which `$1`, `$name` and the like
/// stand for capture groups), or `None` where `pattern` is not a regular
/// expression that the crate accepts.
pub uninterp spec fn regex_replaced(
    pattern: Seq<char>,
    text: Seq<char>,
    replacement: Seq<char>,
) -> Option<Seq<char>>;

/// Trusted: compiles the pattern with `regex::Regex::new` and, where that
/// succeeds, calls `Regex::replace_all` on the text with the replacement.
/// Both depend on their arguments alone; the result is only named.
#[verifier::external_body]
pub(crate) fn regex_replace_all(pattern: &str, text: &str, replacement: &str) -> (r: Option<
    String,
>)
    ensures
        opt_text(r) == regex_replaced(pattern@, text@, replacement@),
{
    match regex::Regex::new(pattern) {
        Ok(re) => Some(re.replace_all(text, replacement).into_owned()),
        Err(_) => None,
    }
}

/// A text filled with zeros on the left up to a width; a text that is at least
/// that wide is left as it is.
pub open spec fn zero_padded(digits: Seq<char>, width: nat) -> Seq<char> {
    if digits.len() >= width {
        digits
    } else {
        Seq::new((width - digits.len()) as nat, |i: int| '0') + digits
    }
}

/// The number that a counter shows for the file at `index`.
pub open spec fn counter_value(start: usize, step: usize, index: usize) -> nat {
    (start + index * step) as nat
}

/// The number of bytes that a character takes in UTF-8.
pub open spec fn utf8_width(c: char) -> int {
    if (c as u32) < 0x80 {
        1
    } else if (c as u32) < 0x800 {
        2
    } else if (c as u32) < 0x10000 {
        3
    } else {
        4
    }
}

/// The number of characters of `text` that precede byte `offset` of its UTF-8
/// form. Where no character starts at that byte, because the offset is past
/// the end or falls inside a character, it is the length of the text.
pub open spec fn chars_before(text: Seq<char>, offset: int) -> int
    decreases text.len(),
{
    if offset <= 0 || text.len() == 0 {
        if offset <= 0 {
            0
        } else {
            text.len() as int
        }
    } else if offset < utf8_width(text[0]) {
        text.len() as int
    } else {
        1 + chars_before(text.drop_first(), offset - utf8_width(text[0]))
    }
}

/// Whether a filter removes a character.
pub open spec fn removed_by(filter: FilterType, c: char) -> bool {
    match filter {
        FilterType::Numbers => numeric_char(c),
        FilterType::Letters => alphabetic_char(c),
        FilterType::Whitespace => whitespace_char(c),
        FilterType::Symbols => !(alphabetic_char(c) || numeric_char(c)) && !whitespace_char(c),
    }
}

/// A text without the characters that a filter removes.
pub open spec fn filtered(text: Seq<char>, filter: FilterType) -> Seq<char>
    decreases text.len(),
{
    if text.len() == 0 {
        Seq::empty()
    } else if removed_by(filter, text.last()) {
        filtered(text.drop_last(), filter)
    } else {
        filtered(text.drop_last(), filter).push(text.last())
    }
}

/// A base name under a case transform. Title case puts the first character in
/// upper case and the rest in lower case; camel case and snake case leave the
/// name as it is.
pub open spec fn recased(base: Seq<char>, transform: CaseType) -> Seq<char> {
    match transform {
        CaseType::Lowercase => lowercase_of(base),
        CaseType::Uppercase => uppercase_of(base),
        CaseType::Titlecase => if base.len() == 0 {
            Seq::empty()
        } else {
            char_uppercase_of(base[0]) + lowercase_of(base.skip(1))
        },
        CaseType::CamelCase => base,
        CaseType::SnakeCase => base,
    }
}

/// A base name with a literal put in at a position.
pub open spec fn with_literal(base: Seq<char>, text: Seq<char>, position: Position) -> Seq<char> {
    match position {
        Position::Start => text + base,
        Position::End => base + text,
        Position::Index(offset) => {
            let at = chars_before(base, offset as int);
            base.take(at) + text + base.skip(at)
        },
    }
}

/// A base name with a date appended: the moment rendered under the format, or
/// nothing where there is no moment or it cannot be rendered.
pub open spec fn with_date(base: Seq<char>, format: Seq<char>, moment: Option<Moment>) -> Seq<
    char,
> {
    match moment {
        Some(m) => match formatted_moment(
            m.seconds as int,
            m.nanos as int,
            m.offset as int,
            format,
        ) {
            Some(text) => base + text,
            None => base,
        },
        None => base,
    }
}

impl Rule {
    /// The base name that this rule makes of a base name.
    pub open spec fn rewritten(&self, base: Seq<char>, context: &Context) -> Seq<char> {
        match self {
            Rule::StripPrefix { prefix } => if prefix@.is_prefix_of(base) {
                base.skip(prefix@.len() as int)
            } else {
                base
            },
            Rule::StripSuffix { suffix } => if suffix@.is_suffix_of(base) {
                base.take(base.len() - suffix@.len())
            } else {
                base
            },
            Rule::RegexReplace { pattern, replacement } => match regex_replaced(
                pattern@,
                base,
                replacement@,
            ) {
                Some(text) => text,
                None => base,
            },
            Rule::CaseTransform { transform } => recased(base, *transform),
            Rule::Literal { text, position } => with_literal(base, text@, *position),
            Rule::Counter { padding, start, step, separator } => base + separator@ + zero_padded(
                decimal_of(counter_value(*start, *step, context.index)),
                *padding as nat,
            ),
            Rule::DateInsertion { format, source } => with_date(
                base,
                format@,
                context.date(*source),
            ),
            Rule::FilterContent { filter } => filtered(base, *filter),
        }
    }

    /// The file name that this rule makes of a file name: the base rewritten,
    /// the extension kept.
    pub open spec fn applied(&self, name: FilenameModel, context: &Context) -> FilenameModel {
        FilenameModel { base: self.rewritten(name.base, context), extension: name.extension }
    }

    /// Applies the rule to a file name. Only the base changes; the extension
    /// is carried over.
    pub fn execute(&self, filename: &Filename, context: &Context) -> (r: Filename)
        ensures
            r@ == self.applied(filename@, context),
    {
        let base = chars_of(filename.base.as_str());
        let new_base: String = match self {
            Rule::StripPrefix { prefix } => {
                let p = chars_of(prefix.as_str());
                if starts_with(&base, &p) {
                    let rest = slice_chars(&base, p.len(), base.len());
                    text_of(&rest)
                } else {
                    filename.base.clone()
                }
            },
            Rule::StripSuffix { suffix } => {
                let s = chars_of(suffix.as_str());
                if ends_with(&base, &s) {
                    let rest = slice_chars(&base, 0, base.len() - s.len());
                    text_of(&rest)
                } else {
                    filename.base.clone()
                }
            },
            Rule::RegexReplace { pattern, replacement } => {
                match regex_replace_all(
                    pattern.as_str(),
                    filename.base.as_str(),
                    replacement.as_str(),
                ) {
                    Some(text) => text,
                    None => filename.base.clone(),
                }
            },
            Rule::CaseTransform { transform } => recase(&base, filename.base.as_str(), *transform),
            Rule::Literal { text, position } => {
                let t = chars_of(text.as_str());
                let out = insert_literal(&base, &t, *position);
                text_of(&out)
            },
            Rule::Counter { padding, start, step, separator } => {
                let sep = chars_of(separator.as_str());
                let mut out = base;
                append_chars(&mut out, &sep);
                let number = counter_text(*start, *step, context.index, *padding);
                append_chars(&mut out, &number);
                text_of(&out)
            },
            Rule::DateInsertion { format, source } => {
                let moment = pick_date(context, *source);
                append_date(&base, format.as_str(), moment)
            },
            Rule::FilterContent { filter } => {
                let out = filter_chars(&base, *filter);
                text_of(&out)
            },
        };
        let extension = match &filename.extension {
            Some(ext) => Some(ext.clone()),
            None => None,
        };
        Filename { base: new_base, extension }
    }
}

/// A base name under a case transform; `text` holds the same characters as
/// `base`.
fn recase(base: &Vec<char>, text: &str, transform: CaseType) -> (r: String)
    requires
        base@ == text@,
    ensures
        r@ == recased(base@, transform),
{
    match transform {
        CaseType::Lowercase => lowercase(text),
        CaseType::Uppercase => uppercase(text),
        CaseType::Titlecase => {
            if base.len() == 0 {
                String::new()
            } else {
                let mut out = char_uppercase(base[0]);
                let rest = slice_chars(base, 1, base.len());
                let rest_text = text_of(&rest);
                let lowered = lowercase(rest_text.as_str());
                let tail = chars_of(lowered.as_str());
                append_chars(&mut out, &tail);
                assert(base@.skip(1) =~= base@.subrange(1, base@.len() as int));
                text_of(&out)
            }
        },
        CaseType::CamelCase => text_of(base),
        CaseType::SnakeCase => text_of(base),
    }
}

/// The number of bytes that a character takes in UTF-8.
fn width_of(c: char) -> (w: usize)
    ensures
        w == utf8_width(c),
{
    let code: u32 = c as u32;
    if code < 0x80 {
        1
    } else if code < 0x800 {
        2
    } else if code < 0x10000 {
        3
    } else {
        4
    }
}

/// The position in characters that byte `offset` of the UTF-8 form of `text`
/// stands for.
fn locate(text: &Vec<char>, offset: usize) -> (at: usize)
    ensures
        at == chars_before(text@, offset as int),
        at <= text.len(),
{
    let mut k: usize = 0;
    let mut left: usize = offset;
    assert(text@.skip(0) =~= text@);
    while k < text.len() && left > 0
        invariant
            k <= text.len(),
            chars_before(text@, offset as int) == k + chars_before(
                text@.skip(k as int),
                left as int,
            ),
        decreases text.len() - k,
    {
        let w = width_of(text[k]);
        proof {
            assert(text@.skip(k as int).drop_first() =~= text@.skip(k + 1));
            assert(text@.skip(k as int)[0] == text@[k as int]);
        }
        if left < w {
            assert(text@.skip(k as int).len() == text.len() - k);
            return text.len();
        }
        left = left - w;
        k = k + 1;
    }
    proof {
        if left > 0 {
            assert(text@.skip(k as int).len() == 0);
        }
    }
    k
}

/// A base name with a literal put in at a position.
fn insert_literal(base: &Vec<char>, text: &Vec<char>, position: Position) -> (r: Vec<char>)
    ensures
        r@ == with_literal(base@, text@, position),
{
    let at: usize = match position {
        Position::Start => 0,
        Position::End => base.len(),
        Position::Index(offset) => locate(base, offset),
    };
    let mut out = slice_chars(base, 0, at);
    append_chars(&mut out, text);
    let tail = slice_chars(base, at, base.len());
    append_chars(&mut out, &tail);
    proof {
        assert(base@.take(at as int) =~= base@.subrange(0, at as int));
        assert(base@.skip(at as int) =~= base@.subrange(at as int, base@.len() as int));
        match position {
            Position::Start => {
                assert(out@ =~= text@ + base@);
            },
            Position::End => {
                assert(out@ =~= base@ + text@);
            },
            Position::Index(offset) => {},
        }
    }
    out
}

/// The text that a counter shows for the file at `index`: the number in
/// decimal, filled with zeros on the left up to `padding` characters.
pub fn counter_text(start: usize, step: usize, index: usize, padding: usize) -> (r: Vec<char>)
    ensures
        r@ == zero_padded(decimal_of(counter_value(start, step, index)), padding as nat),
{
    assert(index * step <= 0xffff_ffff_ffff_ffff * 0xffff_ffff_ffff_ffff) by (nonlinear_arith)
        requires
            0 <= index <= 0xffff_ffff_ffff_ffff,
            0 <= step <= 0xffff_ffff_ffff_ffff,
    ;
    let value: u128 = (start as u128) + (index as u128) * (step as u128);
    let mut digits: Vec<char> = Vec::new();
    push_decimal(&mut digits, value);
    assert(digits@ =~= decimal_of(counter_value(start, step, index)));
    if digits.len() >= padding {
        return digits;
    }
    let fill: usize = padding - digits.len();
    let mut out: Vec<char> = Vec::new();
    let mut i: usize = 0;
    while i < fill
        invariant
            i <= fill,
            out@ == Seq::new(i as nat, |k: int| '0'),
        decreases fill - i,
    {
        out.push('0');
        assert(out@ =~= Seq::new((i + 1) as nat, |k: int| '0'));
        i = i + 1;
    }
    append_chars(&mut out, &digits);
    out
}

/// The date that a source stands for in a context.
fn pick_date(context: &Context, source: DateSource) -> (r: Option<Moment>)
    ensures
        r == context.date(source),
{
    match &context.path {
        None => None,
        Some(_) => match source {
            DateSource::Current => Some(context.now),
            DateSource::Created => context.created,
            DateSource::Modified => context.modified,
            DateSource::Exif => context.captured,
        },
    }
}

/// A base name with a date appended.
fn append_date(base: &Vec<char>, format: &str, moment: Option<Moment>) -> (r: String)
    ensures
        r@ == with_date(base@, format@, moment),
{
    let mut out = slice_chars(base, 0, base.len());
    assert(out@ =~= base@);
    match moment {
        Some(m) => match format_moment(m, format) {
            Some(text) => {
                let tail = chars_of(text.as_str());
                append_chars(&mut out, &tail);
            },
            None => {},
        },
        None => {},
    }
    text_of(&out)
}

/// Whether a filter removes a character.
fn removes(filter: FilterType, c: char) -> (r: bool)
    ensures
        r == removed_by(filter, c),
{
    match filter {
        FilterType::Numbers => is_numeric(c),
        FilterType::Letters => is_alphabetic(c),
        FilterType::Whitespace => is_whitespace(c),
        FilterType::Symbols => {
            let alphanumeric = is_alphabetic(c) || is_numeric(c);
            !alphanumeric && !is_whitespace(c)
        },
    }
}

/// A text without the characters that a filter removes.
fn filter_chars(text: &Vec<char>, filter: FilterType) -> (r: Vec<char>)
    ensures
        r@ == filtered(text@, filter),
{
    let mut out: Vec<char> = Vec::new();
    let mut i: usize = 0;
    while i < text.len()
        invariant
            i <= text.len(),
            out@ == filtered(text@.take(i as int), filter),
        decreases text.len() - i,
    {
        proof {
            assert(text@.take(i + 1).drop_last() =~= text@.take(i as int));
            assert(text@.take(i + 1).last() == text@[i as int]);
        }
        if !removes(filter, text[i]) {
            out.push(text[i]);
        }
        i = i + 1;
    }
    assert(text@.take(text@.len() as int) =~= text@);
    out
}

/// The file name that a list of rules makes of a file name, each rule applied
/// to what the one before it made.
pub open spec fn apply_rules(
    rules: Seq<Rule>,
    name: FilenameModel,
    context: &Context,
) -> FilenameModel
    decreases rules.len(),
{
    if rules.len() == 0 {
        name
    } else {
        rules.last().applied(apply_rules(rules.drop_last(), name, context), context)
    }
}

impl Pipeline {
    /// The file name that the pipeline makes of a file name.
    pub open spec fn applied(&self, name: FilenameModel, context: &Context) -> FilenameModel {
        apply_rules(self.rules@, name, context)
    }

    /// Applies the rules in order, each to the result of the one before. An
    /// empty pipeline hands the name back unchanged.
    pub fn apply(&self, original: &Filename, context: &Context) -> (r: Filename)
        ensures
            r@ == self.applied(original@, context),
    {
        let mut current = Filename {
            base: original.base.clone(),
            extension: match &original.extension {
                Some(ext) => Some(ext.clone()),
                None => None,
            },
        };
        let mut i: usize = 0;
        while i < self.rules.len()
            invariant
                i <= self.rules.len(),
                current@ == apply_rules(self.rules@.take(i as int), original@, context),
            decreases self.rules.len() - i,
        {
            proof {
                assert(self.rules@.take(i + 1).drop_last() =~= self.rules@.take(i as int));
                assert(self.rules@.take(i + 1).last() == self.rules@[i as int]);
            }
            current = self.rules[i].execute(&current, context);
            i = i + 1;
        }
        assert(self.rules@.take(self.rules@.len() as int) =~= self.rules@);
        current
    }
}

/// The value of a decimal digit, and zero for any other character.
pub open spec fn digit_value(c: char) -> nat {
    if c == '1' {
        1
    } else if c == '2' {
        2
    } else if c == '3' {
        3
    } else if c == '4' {
        4
    } else if c == '5' {
        5
    } else if c == '6' {
        6
    } else if c == '7' {
        7
    } else if c == '8' {
        8
    } else if c == '9' {
        9
    } else {
        0
    }
}

/// The number that a text of decimal digits stands for.
pub open spec fn decimal_value(digits: Seq<char>) -> nat
    decreases digits.len(),
{
    if digits.len() == 0 {
        0
    } else {
        decimal_value(digits.drop_last()) * 10 + digit_value(digits.last())
    }
}

/// The decimal notation of a number stands for that number.
pub proof fn lemma_decimal_value(n: nat)
    ensures
        decimal_value(decimal_of(n)) == n,
    decreases n,
{
    if n < 10 {
        let digits = decimal_of(n);
        assert(digits.drop_last() =~= Seq::<char>::empty());
        assert(decimal_value(digits.drop_last()) == 0);
        assert(digits.last() == digit_char(n as int));
    } else {
        lemma_decimal_value(n / 10);
        let digits = decimal_of(n);
        assert(digits.drop_last() =~= decimal_of(n / 10));
        assert(digits.last() == digit_char((n % 10) as int));
    }
}

/// Zeros on the left do not change the number that digits stand for.
pub proof fn lemma_padding_keeps_value(digits: Seq<char>, width: nat)
    ensures
        decimal_value(zero_padded(digits, width)) == decimal_value(digits),
    decreases digits.len(),
{
    if digits.len() < width {
        let fill = (width - digits.len()) as nat;
        let zeros = Seq::new(fill, |i: int| '0');
        if digits.len() == 0 {
            assert(zeros + digits =~= zeros);
            lemma_zeros_are_zero(fill);
        } else {
            lemma_padding_keeps_value(digits.drop_last(), (width - 1) as nat);
            assert(zero_padded(digits.drop_last(), (width - 1) as nat) =~= zeros
                + digits.drop_last());
            assert((zeros + digits).drop_last() =~= zeros + digits.drop_last());
            assert((zeros + digits).last() == digits.last());
        }
    }
}

/// A text of zeros stands for zero.
pub proof fn lemma_zeros_are_zero(count: nat)
    ensures
        decimal_value(Seq::new(count, |i: int| '0')) == 0,
    decreases count,
{
    if count > 0 {
        lemma_zeros_are_zero((count - 1) as nat);
        let zeros = Seq::new(count, |i: int| '0');
        assert(zeros.drop_last() =~= Seq::new((count - 1) as nat, |i: int| '0'));
        assert(zeros.last() == '0');
    }
}

/// A counter with a step above zero gives files at different positions of a
/// batch different names.
pub proof fn lemma_counter_tells_positions_apart(
    rule: Rule,
    base: Seq<char>,
    first: &Context,
    second: &Context,
)
    requires
        rule matches Rule::Counter { step, .. } && step > 0,
        first.index != second.index,
    ensures
        rule.rewritten(base, first) != rule.rewritten(base, second),
{
    let (padding, start, step, separator) = match rule {
        Rule::Counter { padding, start, step, separator } => (padding, start, step, separator),
        _ => arbitrary(),
    };
    let one = counter_value(start, step, first.index);
    let other = counter_value(start, step, second.index);
    assert(one != other) by (nonlinear_arith)
        requires
            step > 0,
            first.index != second.index,
            one == start + first.index * step,
            other == start + second.index * step,
    ;
    let shown = zero_padded(decimal_of(one), padding as nat);
    let shown_other = zero_padded(decimal_of(other), padding as nat);
    lemma_decimal_value(one);
    lemma_decimal_value(other);
    lemma_padding_keeps_value(decimal_of(one), padding as nat);
    lemma_padding_keeps_value(decimal_of(other), padding as nat);
    assert(shown != shown_other);
    let head = base + separator@;
    if head + shown == head + shown_other {
        assert((head + shown).skip(head.len() as int) =~= shown);
        assert((head + shown_other).skip(head.len() as int) =~= shown_other);
    }
}

} // verus!
