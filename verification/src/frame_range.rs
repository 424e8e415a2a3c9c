//! Which frames of a scene are to be rendered.
use crate::decimal::{
    decimal, decimal_digits, decimal_digits_read_back, decimal_reads_back, i64_value, is_digit,
    parse_i64,
};
use crate::text::{
    has_prefix, is_space, lines, lines_of, same_text, texts, word_len, words, words_of,
    words_of_joined,
};
use vstd::prelude::*;
use vstd::string::*;
use vstd::utf8::{decode_utf8, valid_utf8};

verus! {

/// The text that `String::from_utf8_lossy` makes of bytes.
pub uninterp spec fn lossy_text(bytes: Seq<u8>) -> Seq<char>;

/// `String::from_utf8_lossy` decodes bytes; `lossy_text` names its result. Of
/// bytes that are valid UTF-8 it is the text that they encode.
#[verifier::external_body]
pub(crate) fn decode_lossy(bytes: &[u8]) -> (res: String)
    ensures
        res@ == lossy_text(bytes@),
        valid_utf8(bytes@) ==> res@ == decode_utf8(bytes@),
{
    String::from_utf8_lossy(bytes).into_owned()
}

/// The two numbers that the words begin with.
pub open spec fn leading_pair(words: Seq<Seq<char>>) -> Option<(i64, i64)> {
    if words.len() < 2 {
        None
    } else {
        match (i64_value(words[0]), i64_value(words[1])) {
            (Some(first), Some(last)) => Some((first, last)),
            _ => None,
        }
    }
}

/// What Blender puts before the frame range of a scene.
pub open spec fn range_mark() -> Seq<char> {
    "FRANGE "@
}

/// The frame range that Blender's output tells: the two numbers behind the
/// mark in the first line that begins with it.
pub open spec fn announced_range(lines: Seq<Seq<char>>) -> Option<(i64, i64)>
    decreases lines.len(),
{
    if lines.len() == 0 {
        None
    } else if range_mark().is_prefix_of(lines[0]) {
        leading_pair(words_of(lines[0].skip(range_mark().len() as int)))
    } else {
        announced_range(lines.drop_first())
    }
}

fn read_pair(text: &str) -> (res: Option<(i64, i64)>)
    ensures
        res == leading_pair(words_of(text@)),
{
    let found = words(text);
    assert(texts(found@).len() == found@.len());
    if found.len() < 2 {
        return None;
    }
    assert(texts(found@)[0] == found@[0]@ && texts(found@)[1] == found@[1]@);
    match (parse_i64(found[0].as_str()), parse_i64(found[1].as_str())) {
        (Some(first), Some(last)) => Some((first, last)),
        _ => None,
    }
}

/// Reads the frame range of a scene from the text that Blender printed.
pub fn parse_frame_range(text: &str) -> (res: Option<(i64, i64)>)
    ensures
        res == announced_range(lines_of(text@)),
{
    let found = lines(text);
    let ghost all = lines_of(text@);
    let mut i: usize = 0;
    assert(all.skip(0) == all);
    while i < found.len()
        invariant
            i <= found@.len(),
            all == lines_of(text@),
            texts(found@) == all,
            announced_range(all) == announced_range(all.skip(i as int)),
        decreases found@.len() - i,
    {
        let line = found[i].as_str();
        assert(all[i as int] == line@);
        assert(all.skip(i as int)[0] == line@);
        assert(all.skip(i as int).drop_first() == all.skip(i + 1));
        if has_prefix(line, "FRANGE ") {
            let size: usize = line.unicode_len();
            let mark: usize = "FRANGE ".unicode_len();
            let rest = line.substring_char(mark, size);
            assert(rest@ == line@.skip(range_mark().len() as int));
            return read_pair(rest);
        }
        i = i + 1;
    }
    assert(all.skip(i as int).len() == 0);
    None
}

/// The arguments that make Blender announce the frame range of a scene.
pub fn probe_args(blend_path: &str) -> (res: Vec<String>)
    ensures
        texts(res@) == seq![
            "-b"@,
            blend_path@,
            "--python-expr"@,
            "import bpy; s = bpy.context.scene; print('FRANGE', s.frame_start, s.frame_end)"@,
        ],
{
    let res = vec![
        "-b".to_owned(),
        blend_path.to_owned(),
        "--python-expr".to_owned(),
        "import bpy; s = bpy.context.scene; print('FRANGE', s.frame_start, s.frame_end)".to_owned(),
    ];
    assert(texts(res@) =~= seq![
        "-b"@,
        blend_path@,
        "--python-expr"@,
        "import bpy; s = bpy.context.scene; print('FRANGE', s.frame_start, s.frame_end)"@,
    ]);
    res
}

/// Reads the frame range of a scene from the output of Blender.
pub fn extract_frame_range(stdout: &[u8]) -> (res: Option<(i64, i64)>)
    ensures
        res == announced_range(lines_of(lossy_text(stdout@))),
        valid_utf8(stdout@) ==> res == announced_range(lines_of(decode_utf8(stdout@))),
{
    let text = decode_lossy(stdout);
    parse_frame_range(text.as_str())
}

/// The animation settings of the client, as they are stored.
#[derive(Debug, PartialEq)]
pub struct AnimationSettings {
    pub single_frame_status: String,
    pub range_status: String,
    pub start_frame: String,
    pub end_frame: String,
}

/// Where the frame range comes from.
#[derive(Clone, Copy, Debug, PartialEq, Eq, Structural)]
pub enum RangeSource {
    /// There is none: a single frame is rendered.
    SingleFrame,
    /// The client chose it.
    Chosen(i64, i64),
    /// The scene itself tells it.
    Scene,
}

/// A frame number in the settings; one where there is none.
pub open spec fn frame_setting(s: Seq<char>) -> i64 {
    match i64_value(s) {
        Some(frame) => frame,
        None => 1,
    }
}

/// Where the settings take the frame range from: a single frame goes before a
/// chosen range, and the whole animation is what is left.
pub open spec fn range_source(settings: AnimationSettings) -> RangeSource {
    if settings.single_frame_status@ == "true"@ {
        RangeSource::SingleFrame
    } else if settings.range_status@ == "true"@ {
        RangeSource::Chosen(
            frame_setting(settings.start_frame@),
            frame_setting(settings.end_frame@),
        )
    } else {
        RangeSource::Scene
    }
}

/// Decides where the frame range comes from.
pub fn resolve_range(settings: &AnimationSettings) -> (res: RangeSource)
    ensures
        res == range_source(*settings),
{
    if same_text(settings.single_frame_status.as_str(), "true") {
        return RangeSource::SingleFrame;
    }
    if same_text(settings.range_status.as_str(), "true") {
        let start: i64 = parse_i64(settings.start_frame.as_str()).unwrap_or(1);
        let end: i64 = parse_i64(settings.end_frame.as_str()).unwrap_or(1);
        return RangeSource::Chosen(start, end);
    }
    RangeSource::Scene
}

proof fn lemma_one_word(s: Seq<char>)
    requires
        s.len() > 0,
        forall|i: int| 0 <= i < s.len() ==> !is_space(#[trigger] s[i]),
    ensures
        word_len(s) == s.len(),
        words_of(s) == seq![s],
    decreases s.len(),
{
    if s.len() > 1 {
        assert forall|i: int| 0 <= i < s.len() - 1 implies !is_space(
            #[trigger] s.drop_first()[i],
        ) by {
            assert(s.drop_first()[i] == s[i + 1]);
        }
        lemma_one_word(s.drop_first());
    } else {
        assert(word_len(s.drop_first()) == 0);
    }
    assert(s.take(s.len() as int) == s);
    assert(words_of(s.skip(s.len() as int)) == Seq::<Seq<char>>::empty());
    assert(seq![s] + Seq::<Seq<char>>::empty() == seq![s]);
}

proof fn lemma_decimal_is_one_word(n: int)
    ensures
        words_of(decimal(n)) == seq![decimal(n)],
{
    let size = if n < 0 {
        (-n) as nat
    } else {
        n as nat
    };
    let s = decimal(n);
    decimal_digits_read_back(size);
    assert forall|i: int| 0 <= i < s.len() implies !is_space(#[trigger] s[i]) by {
        if n < 0 && i > 0 {
            assert(is_digit(decimal_digits(size)[i - 1]));
        } else if n >= 0 {
            assert(is_digit(decimal_digits(size)[i]));
        }
    }
    lemma_one_word(s);
}

/// The range that Blender announces is the range that is read, whatever else
/// it prints: before the announcement no line that begins like one, and
/// anything after it.
pub proof fn announcement_reads_back(
    before: Seq<Seq<char>>,
    after: Seq<Seq<char>>,
    first: i64,
    last: i64,
)
    requires
        forall|i: int| 0 <= i < before.len() ==> !range_mark().is_prefix_of(#[trigger] before[i]),
    ensures
        announced_range(
            before + seq![
                range_mark() + decimal(first as int) + seq![' '] + decimal(last as int),
            ] + after,
        ) == Some((first, last)),
    decreases before.len(),
{
    let line = range_mark() + decimal(first as int) + seq![' '] + decimal(last as int);
    let all = before + seq![line] + after;
    if before.len() > 0 {
        assert(all[0] == before[0]);
        assert(all.drop_first() == before.drop_first() + seq![line] + after);
        assert forall|i: int| 0 <= i < before.len() - 1 implies !range_mark().is_prefix_of(
            #[trigger] before.drop_first()[i],
        ) by {
            assert(before.drop_first()[i] == before[i + 1]);
        }
        announcement_reads_back(before.drop_first(), after, first, last);
    } else {
        assert(all[0] == line);
        let rest = line.skip(range_mark().len() as int);
        assert(rest == decimal(first as int) + seq![' '] + decimal(last as int));
        assert(range_mark() =~= line.subrange(0, range_mark().len() as int));
        words_of_joined(decimal(first as int), decimal(last as int));
        lemma_decimal_is_one_word(first as int);
        lemma_decimal_is_one_word(last as int);
        decimal_reads_back(first as int);
        decimal_reads_back(last as int);
        assert(words_of(rest) =~= seq![decimal(first as int), decimal(last as int)]);
    }
}

/// The first line that begins with the mark decides, by what follows the mark
/// there; where no line begins with it, there is no range.
pub proof fn first_marked_line_decides(
    before: Seq<Seq<char>>,
    rest: Seq<char>,
    after: Seq<Seq<char>>,
)
    requires
        forall|i: int| 0 <= i < before.len() ==> !"FRANGE "@.is_prefix_of(#[trigger] before[i]),
    ensures
        announced_range(before) is None,
        announced_range(before + seq!["FRANGE "@ + rest] + after) == leading_pair(words_of(rest)),
    decreases before.len(),
{
    let line = "FRANGE "@ + rest;
    let all = before + seq![line] + after;
    if before.len() > 0 {
        assert(all[0] == before[0]);
        assert(all.drop_first() =~= before.drop_first() + seq![line] + after);
        assert forall|i: int| 0 <= i < before.len() - 1 implies !"FRANGE "@.is_prefix_of(
            #[trigger] before.drop_first()[i],
        ) by {
            assert(before.drop_first()[i] == before[i + 1]);
        }
        first_marked_line_decides(before.drop_first(), rest, after);
    } else {
        assert(all[0] == line);
        assert("FRANGE "@ =~= line.subrange(0, "FRANGE "@.len() as int));
        assert(line.skip("FRANGE "@.len() as int) =~= rest);
    }
}

/// A pair is read exactly where the first two words are numbers, and is those;
/// further words do not matter.
pub proof fn two_numbers_are_read(words: Seq<Seq<char>>)
    ensures
        leading_pair(words) is Some <==> words.len() >= 2 && i64_value(words[0]) is Some
            && i64_value(words[1]) is Some,
        leading_pair(words) matches Some((first, last)) ==> i64_value(words[0]) == Some(first)
            && i64_value(words[1]) == Some(last),
{
}

/// A single frame goes before a chosen range, a chosen range before that of
/// the scene; the ends of a chosen range are what the settings say, and one
/// where they say no number.
pub proof fn settings_choose_the_range(settings: AnimationSettings)
    ensures
        range_source(settings) == RangeSource::SingleFrame <==> settings.single_frame_status@
            == "true"@,
        range_source(settings) is Scene <==> settings.single_frame_status@ != "true"@
            && settings.range_status@ != "true"@,
        range_source(settings) matches RangeSource::Chosen(start, end) ==> {
            &&& i64_value(settings.start_frame@) matches Some(n) ==> start == n
            &&& i64_value(settings.start_frame@) is None ==> start == 1
            &&& i64_value(settings.end_frame@) matches Some(n) ==> end == n
            &&& i64_value(settings.end_frame@) is None ==> end == 1
        },
{
}

} // verus!
