//! Formatting is idempotent, and a type survives the way through its text.
use vstd::prelude::*;
use vstd::utf8::encode_utf8;

use crate::ast::{StatementView, TypeView};
use crate::fmt::render::{file_text, type_text};
use crate::lexer::cursor::line_at;
use crate::lexer::reread::{emit, lemma_rereads};
use crate::lexer::stream::stream_of;
use crate::parser::grammar::parse;
use crate::roundtrip::chain::{lemma_reads_token, reads};
use crate::roundtrip::fits::{lemma_file_readable, lemma_fits_readable, lemma_type_fits};
use crate::roundtrip::items::{file_items, type_items};
use crate::roundtrip::lines::{lemma_newlines_known, lemma_statements_text_same};
use crate::roundtrip::parsed::{lemma_file_sound, lemma_stream_sound, lemma_type_sound};
use crate::roundtrip::sound::{plain_type, sound_statements, sound_type, tidy};
use crate::roundtrip::statements::lemma_file_reparsed;
use crate::roundtrip::text::{lemma_file_emits, lemma_type_emits};
use crate::roundtrip::types::lemma_type_reparsed;

verus! {

/// The text of a tidy file of sound statements parses, to a file with the same text.
#[verifier::rlimit(60)]
pub proof fn lemma_text_parses(statements: Seq<StatementView>)
    requires
        sound_statements(statements, statements.len()),
        tidy(statements, statements.len()),
        encode_utf8(file_text(statements, "  "@, 0)).len() < usize::MAX,
    ensures
        match parse(file_text(statements, "  "@, 0)) {
            Ok(again) => file_text(again, "  "@, 0) == file_text(statements, "  "@, 0),
            Err(_) => false,
        },
{
    let text = file_text(statements, "  "@, 0);
    let items = file_items(statements);
    let tail = "\n"@;
    lemma_newlines_known();
    lemma_file_emits(statements);
    lemma_file_readable(statements);
    assert(text.skip(0) =~= text);
    lemma_rereads(text, 0, items, tail);
    let s = stream_of(text);
    assert(line_at(text, 0) == 1);
    assert(reads(s, items, tail)) by {
        reveal(reads);
    }
    lemma_reads_token(s, items, tail, 0);
    if statements.len() == 0 {
        assert(statements =~= Seq::<StatementView>::empty());
        assert(items.len() == 0);
    } else {
        lemma_file_reparsed(s, items, tail, statements, 0, Seq::empty());
        let again = s.file(0, Seq::empty())->Ok_0;
        lemma_statements_text_same(again, statements, 0);
    }
}

/// Idempotent formatting. Where a source parses, and no comment in it started on the line on
/// which the statement before it ended, its formatted text parses again, and formats to
/// itself. (A comment after a statement on its line stays on that line when it is formatted,
/// and there no statement separator stands before it any more.)
///
/// The two bounds say that the source and its formatted text are strings: texts of fewer bytes
/// than the largest number.
pub proof fn lemma_format_idempotent(source: Seq<char>)
    requires
        parse(source) is Ok,
        tidy(parse(source)->Ok_0, parse(source)->Ok_0.len()),
        encode_utf8(source).len() <= usize::MAX,
        encode_utf8(file_text(parse(source)->Ok_0, "  "@, 0)).len() < usize::MAX,
    ensures
        parse(file_text(parse(source)->Ok_0, "  "@, 0)) is Ok,
        file_text(parse(file_text(parse(source)->Ok_0, "  "@, 0))->Ok_0, "  "@, 0) == file_text(
            parse(source)->Ok_0,
            "  "@,
            0,
        ),
{
    let statements = parse(source)->Ok_0;
    lemma_stream_sound(source, 0);
    lemma_file_sound(stream_of(source), 0, Seq::empty());
    lemma_text_parses(statements);
}

/// A type survives the way through its text. The text of a sound type parses, to its end, as
/// a type with the same text; and as the same type where no field in it has a default: an
/// expression holds its place in the source, which the text does not.
///
/// The bound says that the text is a string.
pub proof fn lemma_type_round_trip(typ: TypeView)
    requires
        sound_type(typ),
        encode_utf8(type_text(typ)).len() < usize::MAX,
    ensures
        match stream_of(type_text(typ)).typ(0) {
            Ok((again, k)) => {
                &&& k == stream_of(type_text(typ)).tokens.len()
                &&& type_text(again) == type_text(typ)
                &&& plain_type(typ) ==> again == typ
            },
            Err(_) => false,
        },
{
    let none = Seq::<char>::empty();
    let text = type_text(typ);
    let items = type_items(typ, none);
    lemma_newlines_known();
    lemma_type_emits(typ, none);
    lemma_type_fits(typ, none);
    lemma_fits_readable(items, none);
    assert(text.skip(0) =~= text);
    assert(emit(items) + none =~= text);
    lemma_rereads(text, 0, items, none);
    let s = stream_of(text);
    assert(line_at(text, 0) == 1);
    assert(reads(s, items, none)) by {
        reveal(reads);
    }
    lemma_reads_token(s, items, none, items.len() as int);
    assert(items.subrange(0, items.len() as int) =~= items);
    lemma_type_reparsed(s, items, none, 0, typ, none);
}

/// A type that is parsed from a source is sound, so that it survives the way through its
/// text.
pub proof fn lemma_parsed_type_sound(source: Seq<char>)
    requires
        stream_of(source).typ(0) is Ok,
        encode_utf8(source).len() <= usize::MAX,
    ensures
        sound_type(stream_of(source).typ(0)->Ok_0.0),
{
    lemma_stream_sound(source, 0);
    lemma_type_sound(stream_of(source), 0);
}

} // verus!
