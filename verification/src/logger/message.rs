//! Log messages: what is logged, and the text that is sent of it.

use vstd::prelude::*;
use vstd::string::StringExecFns;

use crate::level::{level_name, Level};
use crate::text::push_padded;

verus! {

/// What is known of a log message before it is put together.
#[derive(Debug, PartialEq, Eq)]
pub struct Metadata {
    /// How severe the message is.
    pub level: Level,
    /// What the message is about, most often the module that logs it.
    pub target: String,
}

/// A log message.
#[derive(Debug, PartialEq, Eq)]
pub struct Record {
    /// How severe the message is.
    pub level: Level,
    /// What the message is about, most often the module that logs it.
    pub target: String,
    /// The message itself.
    pub args: String,
}

impl Record {
    /// The message with its level and its target.
    pub open spec fn spec_text(&self) -> Seq<char> {
        crate::text::pad_right(self.level.spec_name(), 5) + " ["@ + self.target@ + "] "@
            + self.args@
    }

    /// The message with its level and its target.
    pub fn text(&self) -> (text: String)
        ensures
            text@ == self.spec_text(),
    {
        let mut text = String::new();
        push_padded(&mut text, level_name(self.level).as_str(), 5);
        text.append(" [");
        text.append(self.target.as_str());
        text.append("] ");
        text.append(self.args.as_str());
        assert(text@ =~= self.spec_text());
        text
    }
}

/// The character is a decimal digit.
pub open spec fn is_digit(c: char) -> bool {
    '0' <= c <= '9'
}

/// The characters of `text` at `at` and behind it are digits, `count` of them.
pub open spec fn digits_at(text: Seq<char>, at: int, count: int) -> bool {
    forall|i: int| at <= i < at + count ==> is_digit(#[trigger] text[i])
}

/// The number that two digits make.
pub open spec fn two_digits(text: Seq<char>, at: int) -> int {
    (text[at] as int - '0' as int) * 10 + (text[at + 1] as int - '0' as int)
}

/// The characters of `text` at `at` and behind it are two digits, which make a
/// number from `least` to `most`.
pub open spec fn two_digits_within(text: Seq<char>, at: int, least: int, most: int) -> bool {
    &&& digits_at(text, at, 2)
    &&& least <= two_digits(text, at) <= most
}

/// The text is a date and a time of day, to the millisecond: a year of four
/// digits, or of five or six with a sign ahead of them, and then the rest as in
/// `-02-28 12:34:56.789`. The second may be a leap second.
pub open spec fn is_timestamp(text: Seq<char>) -> bool {
    let year = text.len() - 19;
    &&& if year == 4 {
        digits_at(text, 0, year)
    } else {
        &&& 6 <= year <= 7
        &&& text[0] == '+'
        &&& digits_at(text, 1, year - 1)
    }
    &&& text[year] == '-'
    &&& two_digits_within(text, year + 1, 1, 12)
    &&& text[year + 3] == '-'
    &&& two_digits_within(text, year + 4, 1, 31)
    &&& text[year + 6] == ' '
    &&& two_digits_within(text, year + 7, 0, 23)
    &&& text[year + 9] == ':'
    &&& two_digits_within(text, year + 10, 0, 59)
    &&& text[year + 12] == ':'
    &&& two_digits_within(text, year + 13, 0, 60)
    &&& text[year + 15] == '.'
    &&& digits_at(text, year + 16, 3)
}

/// Calls `chrono::Local::now` and formats what it returns, date and time to the
/// millisecond.
///
/// What time it is depends on the clock and the time zone of the machine, so only
/// the layout of the text and the ranges of its numbers are stated. A clock that is set to before 1970 or to
/// after the year 262142, or a time zone without a known offset, makes the call
/// panic.
#[verifier::external_body]
fn local_timestamp() -> (timestamp: String)
    ensures
        is_timestamp(timestamp@),
{
    chrono::Local::now().format("%Y-%m-%d %H:%M:%S%.3f").to_string()
}

/// The text of a message that was logged at a given time.
pub open spec fn message_text(timestamp: Seq<char>, record: Record) -> Seq<char> {
    timestamp + " "@ + record.spec_text()
}

/// The text of a message that was logged at a given time.
pub fn format_message_at(timestamp: &str, record: &Record) -> (text: String)
    ensures
        text@ == message_text(timestamp@, *record),
{
    let mut text = timestamp.to_owned();
    text.append(" ");
    text.append(record.text().as_str());
    text
}

/// The text of a message that is logged now.
///
/// # Panics
///
/// Panics if the clock of the machine is set to before 1970 or to after the year
/// 262142, or if its time zone has no known offset.
pub fn format_message(record: &Record) -> (text: String)
    ensures
        exists|timestamp: Seq<char>| #[trigger]
            is_timestamp(timestamp) && text@ == message_text(timestamp, *record),
{
    let timestamp = local_timestamp();
    format_message_at(timestamp.as_str(), record)
}

/// What the text of a message is made of, from the front to the back: the name of
/// the level, filled up with spaces to five characters, a space, the target in
/// brackets, a space, and all of the message.
pub proof fn law_a_text_has_all_of_the_message(record: Record)
    ensures
        ({
            let text = record.spec_text();
            let name = record.level.spec_name();
            let end = 7 + record.target@.len() as int;
            &&& text.len() == 9 + record.target@.len() + record.args@.len()
            &&& name.len() <= 5
            &&& text.take(name.len() as int) == name
            &&& forall|i: int| name.len() <= i < 6 ==> (#[trigger] text[i]) == ' '
            &&& text[6] == '['
            &&& text.subrange(7, end) == record.target@
            &&& text[end] == ']'
            &&& text[end + 1] == ' '
            &&& text.skip(end + 2) == record.args@
        }),
{
    reveal_strlit("ERROR");
    reveal_strlit("WARN");
    reveal_strlit("INFO");
    reveal_strlit("DEBUG");
    reveal_strlit("TRACE");
    reveal_strlit(" [");
    reveal_strlit("] ");
    let text = record.spec_text();
    let name = record.level.spec_name();
    let end = 7 + record.target@.len() as int;
    crate::text::law_padding_adds_spaces_only(name, 5);
    let padded = crate::text::pad_right(name, 5);
    assert(padded.len() == 5);
    assert forall|i: int| 0 <= i < 5 implies #[trigger] text[i] == padded[i] by {}
    assert forall|i: int| 0 <= i < name.len() implies #[trigger] text[i] == name[i] by {
        assert(padded.take(name.len() as int)[i] == name[i]);
    }
    assert(text.take(name.len() as int) =~= name);
    assert(text.subrange(7, end) =~= record.target@);
    assert(text.skip(end + 2) =~= record.args@);
}

/// Two messages with targets of one length that read the same are the same in
/// target and text.
pub proof fn law_texts_tell_messages_apart(one: Record, other: Record)
    requires
        one.target@.len() == other.target@.len(),
        one.spec_text() == other.spec_text(),
    ensures
        one.target@ == other.target@,
        one.args@ == other.args@,
{
    law_a_text_has_all_of_the_message(one);
    law_a_text_has_all_of_the_message(other);
}

/// The time stands whole ahead of a message, a space follows, and then comes the
/// text that the message has without the time.
pub proof fn law_a_time_stands_ahead(timestamp: Seq<char>, record: Record)
    ensures
        ({
            let text = message_text(timestamp, record);
            &&& text.len() == timestamp.len() + 1 + record.spec_text().len()
            &&& text.take(timestamp.len() as int) == timestamp
            &&& text[timestamp.len() as int] == ' '
            &&& text.skip(timestamp.len() as int + 1) == record.spec_text()
        }),
{
    reveal_strlit(" ");
    let text = message_text(timestamp, record);
    assert(text.take(timestamp.len() as int) =~= timestamp);
    assert(text.skip(timestamp.len() as int + 1) =~= record.spec_text());
}

/// A timestamp, from the back: three digits of milliseconds behind a point, the
/// time of day between colons, and the date between hyphens, with its month from 01
/// to 12, day from 01 to 31, hour up to 23, and minute up to 59.
pub proof fn law_a_timestamp_is_a_date_and_a_time(text: Seq<char>)
    requires
        is_timestamp(text),
    ensures
        text.len() == 23 || text.len() == 25 || text.len() == 26,
        text.len() > 23 ==> text[0] == '+',
        ({
            let y = text.len() - 19;
            &&& forall|i: int|
                (if y == 4 {
                    0
                } else {
                    1int
                }) <= i < text.len() && i != y && i != y + 3 && i != y + 6 && i != y + 9 && i != y
                    + 12 && i != y + 15 ==> '0' <= #[trigger] text[i] <= '9'
            &&& text[y] == '-' && text[y + 3] == '-' && text[y + 6] == ' '
            &&& text[y + 9] == ':' && text[y + 12] == ':' && text[y + 15] == '.'
            &&& text[y + 1] == '0' && text[y + 2] != '0' || text[y + 1] == '1' && text[y + 2] <= '2'
            &&& text[y + 4] <= '2' || text[y + 4] == '3' && text[y + 5] <= '1'
            &&& text[y + 4] != '0' || text[y + 5] != '0'
            &&& text[y + 7] <= '1' || text[y + 7] == '2' && text[y + 8] <= '3'
            &&& text[y + 10] <= '5'
            &&& text[y + 13] <= '5' || text[y + 13] == '6' && text[y + 14] == '0'
        }),
{
    let y = text.len() - 19;
    assert forall|i: int|
        (if y == 4 {
            0
        } else {
            1int
        }) <= i < text.len() && i != y && i != y + 3 && i != y + 6 && i != y + 9 && i != y + 12 && i
            != y + 15 implies '0' <= #[trigger] text[i] <= '9' by {
        assert(is_digit(text[i]));
    }
}

} // verus!
