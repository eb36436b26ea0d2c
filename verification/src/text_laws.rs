//! What holds of the text that is read from a picture.

use pure_onnx_ocr::OcrEngine;
use vstd::prelude::*;

use crate::ocr_wrapper::{joined, ocr_outcome, reading_outcome, texts, OcrFailure};
use crate::picture::{load_outcome, loads_as, Picture};

verus! {

/// The number of characters in some texts together.
pub open spec fn total_length(texts: Seq<Seq<char>>) -> nat
    decreases texts.len(),
{
    if texts.len() == 0 {
        0
    } else {
        texts[0].len() + total_length(texts.drop_first())
    }
}

/// One more text adds its characters.
proof fn lemma_total_length_push(texts: Seq<Seq<char>>, text: Seq<char>)
    ensures
        total_length(texts.push(text)) == total_length(texts) + text.len(),
    decreases texts.len(),
{
    reveal_with_fuel(total_length, 2);
    if texts.len() == 0 {
        assert(texts.push(text).drop_first() =~= Seq::<Seq<char>>::empty());
    } else {
        assert(texts.push(text).drop_first() =~= texts.drop_first().push(text));
        lemma_total_length_push(texts.drop_first(), text);
    }
}

/// A text without line breaks.
pub open spec fn one_line(text: Seq<char>) -> bool {
    forall|i: int| 0 <= i < text.len() ==> #[trigger] text[i] != '\n'
}

/// The lines of a text: what stands between its line breaks.
pub open spec fn lines_of(text: Seq<char>) -> Seq<Seq<char>>
    decreases text.len(),
{
    if text.len() == 0 {
        seq![Seq::empty()]
    } else {
        let before = lines_of(text.drop_last());
        if text.last() == '\n' {
            before.push(Seq::empty())
        } else {
            before.drop_last().push(before.last().push(text.last()))
        }
    }
}

/// A text that follows without a line break lengthens the last line.
proof fn lemma_lines_grow(text: Seq<char>, more: Seq<char>)
    requires
        one_line(more),
    ensures
        lines_of(text).len() >= 1,
        lines_of(text + more) == lines_of(text).drop_last().push(lines_of(text).last() + more),
    decreases more.len(), text.len(),
{
    if more.len() == 0 {
        lemma_some_line(text);
        assert(text + more =~= text);
        assert(lines_of(text).last() + more =~= lines_of(text).last());
        assert(lines_of(text) =~= lines_of(text).drop_last().push(lines_of(text).last()));
    } else {
        let rest = more.drop_last();
        let c = more[more.len() - 1];
        assert(c != '\n');
        assert forall|i: int| 0 <= i < rest.len() implies #[trigger] rest[i] != '\n' by {
            assert(more[i] != '\n');
        }
        lemma_lines_grow(text, rest);
        let whole = text + more;
        assert(whole.drop_last() =~= text + rest);
        assert(whole.last() == c);
        let before = lines_of(text + rest);
        assert(before.last() == lines_of(text).last() + rest);
        assert((lines_of(text).last() + rest).push(c) =~= lines_of(text).last() + more);
        assert(before.drop_last() =~= lines_of(text).drop_last());
    }
}

/// Every text has a line.
proof fn lemma_some_line(text: Seq<char>)
    ensures
        lines_of(text).len() >= 1,
    decreases text.len(),
{
    if text.len() > 0 {
        lemma_some_line(text.drop_last());
    }
}

/// No text joins to nothing, and one text to itself.
pub proof fn law_one_text_stays_itself(text: Seq<char>)
    ensures
        joined(Seq::empty()) == Seq::<char>::empty(),
        joined(seq![text]) == text,
{
}

/// Joining some texts and then some more puts one line break between the two.
pub proof fn law_joining_in_parts(a: Seq<Seq<char>>, b: Seq<Seq<char>>)
    requires
        a.len() > 0,
        b.len() > 0,
    ensures
        joined(a + b) == joined(a) + seq!['\n'] + joined(b),
    decreases b.len(),
{
    let rest = b.drop_last();
    assert((a + b).last() == b.last());
    if b.len() == 1 {
        assert((a + b).drop_last() =~= a);
    } else {
        assert((a + b).drop_last() =~= a + rest);
        law_joining_in_parts(a, rest);
        assert(joined(a + b) =~= joined(a) + seq!['\n'] + joined(b));
    }
}

/// The joined text holds every text: it is as long as all of them together, and one more for
/// every line break between two.
pub proof fn law_joined_text_holds_every_text(texts: Seq<Seq<char>>)
    requires
        texts.len() > 0,
    ensures
        joined(texts).len() == total_length(texts) + texts.len() - 1,
    decreases texts.len(),
{
    reveal_with_fuel(total_length, 2);
    if texts.len() == 1 {
        assert(texts.drop_first() =~= Seq::<Seq<char>>::empty());
        assert(texts =~= seq![texts[0]]);
        law_one_text_stays_itself(texts[0]);
    } else {
        let rest = texts.drop_last();
        law_joined_text_holds_every_text(rest);
        law_joining_in_parts(rest, seq![texts.last()]);
        law_one_text_stays_itself(texts.last());
        assert(rest + seq![texts.last()] =~= texts);
        assert(rest.push(texts.last()) =~= texts);
        lemma_total_length_push(rest, texts.last());
    }
}

/// Where no text holds a line break, the lines of the joined text are the texts, every one of
/// them and in their order.
pub proof fn law_lines_of_joined_text_are_the_texts(texts: Seq<Seq<char>>)
    requires
        texts.len() > 0,
        forall|i: int| 0 <= i < texts.len() ==> one_line(#[trigger] texts[i]),
    ensures
        lines_of(joined(texts)) == texts,
    decreases texts.len(),
{
    let last = texts[texts.len() - 1];
    assert(one_line(last));
    if texts.len() == 1 {
        assert(texts =~= seq![last]);
        law_one_text_stays_itself(last);
        lemma_lines_grow(Seq::empty(), last);
        assert(Seq::<char>::empty() + last =~= last);
        assert(lines_of(last) =~= texts);
    } else {
        let rest = texts.drop_last();
        assert forall|i: int| 0 <= i < rest.len() implies one_line(#[trigger] rest[i]) by {
            assert(one_line(texts[i]));
        }
        law_lines_of_joined_text_are_the_texts(rest);
        law_joining_in_parts(rest, seq![last]);
        law_one_text_stays_itself(last);
        assert(rest + seq![last] =~= texts);
        let head = joined(rest) + seq!['\n'];
        assert(head.drop_last() =~= joined(rest));
        assert(head.last() == '\n');
        assert(lines_of(head) == rest.push(Seq::empty()));
        lemma_lines_grow(head, last);
        assert(rest.push(Seq::<char>::empty()).drop_last() =~= rest);
        assert(Seq::<char>::empty() + last =~= last);
        assert(rest.push(last) =~= texts);
    }
}

/// What some strings hold is what each of them holds.
pub proof fn law_texts_are_those_of_the_strings(strings: Seq<String>)
    ensures
        texts(strings).len() == strings.len(),
        forall|i: int| 0 <= i < strings.len() ==> #[trigger] texts(strings)[i] == strings[i]@,
{
}

/// The text of a file holds every region that the engine finds in the picture, one to a line;
/// a picture without regions gives an empty text. There is no text exactly where the file
/// cannot be decoded or the engine fails.
pub proof fn law_text_holds_every_region(
    engine: OcrEngine,
    bytes: Seq<u8>,
    outcome: Result<String, OcrFailure>,
)
    requires
        ocr_outcome(engine, bytes, outcome),
    ensures
        (match outcome {
            Ok(text) => exists|picture: Picture, regions: Seq<Seq<char>>|
                {
                    &&& #[trigger] loads_as(bytes, picture)
                    &&& #[trigger] reading_outcome(engine, picture, Some(regions))
                    &&& text@ == joined(regions)
                    &&& regions.len() == 0 ==> text@.len() == 0
                    &&& regions.len() == 1 ==> text@ == regions[0]
                    &&& regions.len() > 0 ==> text@.len() == total_length(regions) + regions.len()
                        - 1
                    &&& regions.len() > 0 && (forall|i: int|
                        0 <= i < regions.len() ==> one_line(#[trigger] regions[i])) ==> lines_of(
                        text@,
                    ) == regions
                },
            Err(OcrFailure::Undecodable) => load_outcome(bytes, None),
            Err(OcrFailure::Engine) => exists|picture: Picture| #[trigger]
                loads_as(bytes, picture) && reading_outcome(engine, picture, None),
        }),
{
    match outcome {
        Ok(text) => {
            let (picture, regions) = choose|picture: Picture, regions: Seq<Seq<char>>| #[trigger]
                loads_as(bytes, picture) && #[trigger] reading_outcome(
                    engine,
                    picture,
                    Some(regions),
                ) && text@ == joined(regions);
            if regions.len() > 0 {
                law_joined_text_holds_every_text(regions);
                if forall|i: int| 0 <= i < regions.len() ==> one_line(#[trigger] regions[i]) {
                    law_lines_of_joined_text_are_the_texts(regions);
                }
            }
            if regions.len() == 1 {
                assert(regions =~= seq![regions[0]]);
                law_one_text_stays_itself(regions[0]);
            }
        },
        Err(_) => {},
    }
}

} // verus!
