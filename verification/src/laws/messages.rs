//! The laws of what is said to a user: of which line a warning is, and what a refusal quotes.

use crate::apply::FileWrite;
use crate::laws::text as text_laws;
use crate::model::SettingId;
use crate::parsers::hyprlang;
use crate::parsers::monitors::MonitorField;
use crate::parsers::palette;
use crate::store;
use crate::store::StageError;
use crate::store_write;
use crate::store_write::{RenderedEdit, StoreBackedFile, StoreWriteError};
use crate::text;
use vstd::prelude::*;

verus! {

/// Whether a text is `whole` with `part` between two others.
pub open spec fn quotes(whole: Seq<char>, before: Seq<char>, part: Seq<char>, after: Seq<char>) -> bool {
    whole == before + part + after
}

/// Whether a warning is of a line: it says its number in decimal digits, and goes on after a colon.
pub open spec fn is_of_line(warning: Seq<char>, line: int) -> bool {
    exists|digits: Seq<char>, rest: Seq<char>|
        #![trigger "line "@ + digits + seq![':'] + rest]
        {
            &&& warning == "line "@ + digits + seq![':'] + rest
            &&& digits.len() > 0
            &&& text_laws::value_of_digits(digits) == line
            &&& forall|i: int| 0 <= i < digits.len() ==> '0' <= #[trigger] digits[i] <= '9'
        }
}

proof fn lemma_of_line(line: int, rest: Seq<char>, words: Seq<char>)
    requires
        0 <= line,
        words == seq![':'] + rest,
    ensures
        is_of_line("line "@ + text::decimal(line) + words, line),
{
    text_laws::decimal_stands_for_its_number(line);
    let digits = text::decimal(line);
    assert("line "@ + digits + words =~= "line "@ + digits + seq![':'] + rest);
}

/// A warning of a hyprlang file says which line it is of, and one of a section that is never closed
/// names the section.
pub proof fn hyprlang_warning_is_of_its_line(line: int, name: Seq<char>)
    requires
        0 <= line,
    ensures
        ({
            let malformed = hyprlang::Warning { line, kind: hyprlang::WarningKind::MalformedLine };
            let stray = hyprlang::Warning { line, kind: hyprlang::WarningKind::StrayClosingBrace };
            let unclosed = hyprlang::Warning {
                line,
                kind: hyprlang::WarningKind::UnclosedSection { name },
            };
            let head = "line "@ + text::decimal(line);
            &&& is_of_line(hyprlang::warning_text(malformed), line)
            &&& is_of_line(hyprlang::warning_text(stray), line)
            &&& is_of_line(hyprlang::warning_text(unclosed), line)
            &&& quotes(
                hyprlang::warning_text(malformed),
                head,
                ": not a comment, blank line, section header, or key = value entry"@,
                Seq::empty(),
            )
            &&& quotes(
                hyprlang::warning_text(stray),
                head,
                ": `}` with no matching section header"@,
                Seq::empty(),
            )
            &&& quotes(
                hyprlang::warning_text(unclosed),
                head + ": section `"@,
                name,
                "` opened here is never closed"@,
            )
        }),
{
    reveal_strlit(": not a comment, blank line, section header, or key = value entry");
    reveal_strlit(": `}` with no matching section header");
    reveal_strlit(": section `");
    reveal_strlit("` opened here is never closed");
    let malformed = hyprlang::Warning { line, kind: hyprlang::WarningKind::MalformedLine };
    let stray = hyprlang::Warning { line, kind: hyprlang::WarningKind::StrayClosingBrace };
    let unclosed = hyprlang::Warning {
        line,
        kind: hyprlang::WarningKind::UnclosedSection { name },
    };
    let head = "line "@ + text::decimal(line);
    let none = Seq::<char>::empty();
    let a = ": not a comment, blank line, section header, or key = value entry"@;
    assert(a =~= seq![':'] + a.skip(1));
    lemma_of_line(line, a.skip(1), a);
    assert(hyprlang::warning_text(malformed) =~= head + a + none);
    let b = ": `}` with no matching section header"@;
    assert(b =~= seq![':'] + b.skip(1));
    lemma_of_line(line, b.skip(1), b);
    assert(hyprlang::warning_text(stray) =~= head + b + none);
    let c = ": section `"@ + name + "` opened here is never closed"@;
    assert(c =~= seq![':'] + c.skip(1));
    lemma_of_line(line, c.skip(1), c);
    assert(hyprlang::warning_text(unclosed) =~= head + ": section `"@ + name
        + "` opened here is never closed"@);
}

/// A warning of a palette source says which line it is of, and one of a value that is no color names
/// the key and the value.
pub proof fn palette_warning_is_of_its_line(line: int, key: Seq<char>, value: Seq<char>)
    requires
        0 <= line,
    ensures
        ({
            let malformed = palette::Warning { line, kind: palette::WarningKind::MalformedLine };
            let invalid = palette::Warning {
                line,
                kind: palette::WarningKind::InvalidHexValue { key, value },
            };
            let head = "line "@ + text::decimal(line);
            &&& is_of_line(palette::warning_text(malformed), line)
            &&& is_of_line(palette::warning_text(invalid), line)
            &&& quotes(
                palette::warning_text(malformed),
                head,
                ": not a comment, blank line, or key=value entry"@,
                Seq::empty(),
            )
            &&& quotes(
                palette::warning_text(invalid),
                head + ": value of `"@,
                key,
                "` is not a bare-hex color (got `"@ + value + "`)"@,
            )
        }),
{
    reveal_strlit(": not a comment, blank line, or key=value entry");
    reveal_strlit(": value of `");
    let malformed = palette::Warning { line, kind: palette::WarningKind::MalformedLine };
    let invalid = palette::Warning {
        line,
        kind: palette::WarningKind::InvalidHexValue { key, value },
    };
    let head = "line "@ + text::decimal(line);
    let none = Seq::<char>::empty();
    let a = ": not a comment, blank line, or key=value entry"@;
    assert(a =~= seq![':'] + a.skip(1));
    lemma_of_line(line, a.skip(1), a);
    assert(palette::warning_text(malformed) =~= head + a + none);
    let tail = "` is not a bare-hex color (got `"@ + value + "`)"@;
    let b = ": value of `"@ + key + "` is not a bare-hex color (got `"@ + value + "`)"@;
    assert(b =~= seq![':'] + b.skip(1));
    lemma_of_line(line, b.skip(1), b);
    assert(palette::warning_text(invalid) =~= head + ": value of `"@ + key + tail);
}

/// A refusal of an edit of a hyprlang file quotes what it is about: the address, the key and its
/// first field, or the value.
pub proof fn hyprlang_refusal_quotes_its_subject(error: hyprlang::EditError)
    ensures
        error matches hyprlang::EditError::SectionNotFound(path) ==> quotes(
            hyprlang::error_text(error),
            "no section for `"@,
            path@,
            "` to edit or append into"@,
        ),
        error matches hyprlang::EditError::RepeatableKeyNotFound { key, field } ==> quotes(
            hyprlang::error_text(error),
            "no `"@,
            key@,
            "` entry whose first field is `"@ + field@ + "` to edit"@,
        ),
        error matches hyprlang::EditError::NoValuePortion { key, field } ==> quotes(
            hyprlang::error_text(error),
            "the `"@,
            key@,
            "` entry with first field `"@ + field@ + "` has no comma, so no value portion to edit"@,
        ),
        error matches hyprlang::EditError::InvalidValue(value) ==> quotes(
            hyprlang::error_text(error),
            "`"@,
            value@,
            "` contains a newline or `#`, which would break hyprlang parsing"@,
        ),
{
    match error {
        hyprlang::EditError::RepeatableKeyNotFound { key, field } => {
            assert(hyprlang::error_text(error) =~= "no `"@ + key@ + (
            "` entry whose first field is `"@ + field@ + "` to edit"@));
        },
        hyprlang::EditError::NoValuePortion { key, field } => {
            assert(hyprlang::error_text(error) =~= "the `"@ + key@ + (
            "` entry with first field `"@ + field@
                + "` has no comma, so no value portion to edit"@));
        },
        _ => {},
    }
}

/// A refusal of a change says why in the words of the validation, or names the setting that is not
/// loaded.
pub proof fn stage_refusal_says_why(error: StageError)
    ensures
        error matches StageError::Invalid(reason) ==> store::error_text(error) == reason.message@,
        error matches StageError::NotLoaded(id) ==> quotes(
            store::error_text(error),
            "setting "@,
            id.spelled(),
            " is not loaded, so it cannot be staged"@,
        ),
{
}

/// Settings have different names, each that of what it sets.
pub proof fn settings_are_named_apart(a: SettingId, b: SettingId)
    ensures
        a.spelled() == b.spelled() <==> a == b,
        a.spelled() == "MonitorScale"@ <==> a == SettingId::MonitorScale,
        a.spelled() == "LaptopDisplayEnabled"@ <==> a == SettingId::LaptopDisplayEnabled,
        a.spelled() == "WallpaperPath"@ <==> a == SettingId::WallpaperPath,
        a.spelled() == "LockBackgroundPath"@ <==> a == SettingId::LockBackgroundPath,
        a.spelled() == "MouseSensitivity"@ <==> a == SettingId::MouseSensitivity,
        a.spelled() == "NotificationTimeout"@ <==> a == SettingId::NotificationTimeout,
{
    reveal_strlit("MonitorScale");
    reveal_strlit("LaptopDisplayEnabled");
    reveal_strlit("WallpaperPath");
    reveal_strlit("LockBackgroundPath");
    reveal_strlit("MouseSensitivity");
    reveal_strlit("NotificationTimeout");
    assert("MonitorScale"@.len() == 12 && "LaptopDisplayEnabled"@.len() == 20
        && "WallpaperPath"@.len() == 13 && "LockBackgroundPath"@.len() == 18
        && "MouseSensitivity"@.len() == 16 && "NotificationTimeout"@.len() == 19);
    if a.spelled() == b.spelled() {
        assert(a.spelled().len() == b.spelled().len());
        assert(a.spelled()[0] == b.spelled()[0]);
    }
}

/// A failure to write a file names the file and says why.
pub proof fn write_failure_says_why<E>(error: StoreWriteError<E>, words: Seq<char>)
    ensures
        error matches StoreWriteError::Read { file, error: reason } ==> quotes(
            store_write::error_text(error, words),
            file@,
            " could not be read: "@,
            reason@,
        ),
        error matches StoreWriteError::Render { file, error: _ } ==> quotes(
            store_write::error_text(error, words),
            "the "@ + file@,
            " edit could not be applied: "@,
            words,
        ),
{
}

/// What follows from rendering changes into a file: a failure names the file and carries what went
/// wrong; where nothing changed there is no write; else there is one of the whole file, which holds
/// what was rendered and names what changed.
pub proof fn write_carries_the_edit<E>(
    file: StoreBackedFile,
    outcome: Result<RenderedEdit, E>,
    r: Result<Option<FileWrite>, StoreWriteError<E>>,
)
    requires
        file.gives(outcome, r),
    ensures
        r is Err <==> outcome is Err,
        r matches Err(error) ==> {
            &&& error matches StoreWriteError::Render { file: name, error: reason }
            &&& name == file.name
            &&& outcome == Err::<RenderedEdit, E>(reason)
        },
        outcome matches Ok(edit) ==> (r == Ok::<Option<FileWrite>, StoreWriteError<E>>(None)
            <==> edit.changed_keys@.len() == 0),
        r matches Ok(Some(write)) ==> {
            &&& outcome matches Ok(edit)
            &&& write.path@ == file.path@
            &&& write.contents@ == edit.contents@
            &&& text::views(write.changed_keys@) == text::views(edit.changed_keys@)
            &&& write.backing == file.backing
            &&& write.validation == file.validation
        },
{
}

/// The fields of a record go by the names of what they hold.
pub proof fn fields_are_called_what_they_hold(field: MonitorField)
    ensures
        field.word() == "mode"@ <==> field == MonitorField::Mode,
        field.word() == "position"@ <==> field == MonitorField::Position,
        field.word() == "scale"@ <==> field == MonitorField::Scale,
{
    reveal_strlit("mode");
    reveal_strlit("position");
    reveal_strlit("scale");
    assert("mode"@.len() == 4 && "position"@.len() == 8 && "scale"@.len() == 5);
}

} // verus!
