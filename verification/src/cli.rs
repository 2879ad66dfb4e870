//! The command line: what it asks for, and which thread a title means.
use crate::backup::{
    backup_stem, first_chars, is_backup_text, law_backup_names_lead_back, leading_id,
    names_a_thread, thread_id_of_backup, validate_backup, BackupError,
};
use crate::blob::{blob_bytes, blob_text, blob_value, compress_text, zstd_content, zstd_frame};
use crate::chars::{char_vec, contains_text, lowercase, occurs, text_of_chars};
use crate::json::{has_only_integers, parsed_json};
use crate::text::{byte_count, byte_len, joined, same_text};
use crate::types::ThreadMeta;
use vstd::arithmetic::overflow::CheckedUsize;
use vstd::prelude::*;
use vstd::string::*;
use vstd::utf8::*;

verus! {

/// What the command line asks for.
#[derive(Debug)]
pub enum Command {
    List,
    Clean { query: String, keep_last_n: usize },
    Restore { backup_file: String },
    Version,
    Help,
}

/// What a [`Command`] stands for.
pub enum CommandModel {
    List,
    Clean { query: Seq<char>, keep_last_n: usize },
    Restore { backup_file: Seq<char> },
    Version,
    Help,
}

impl View for Command {
    type V = CommandModel;

    open spec fn view(&self) -> CommandModel {
        match self {
            Command::List => CommandModel::List,
            Command::Clean { query, keep_last_n } => CommandModel::Clean {
                query: query@,
                keep_last_n: *keep_last_n,
            },
            Command::Restore { backup_file } => CommandModel::Restore { backup_file: backup_file@ },
            Command::Version => CommandModel::Version,
            Command::Help => CommandModel::Help,
        }
    }
}

/// A hexadecimal digit.
pub open spec fn is_hex_digit(c: char) -> bool {
    '0' <= c <= '9' || 'a' <= c <= 'f' || 'A' <= c <= 'F'
}

/// Whether a text has the form of a UUID: 36 bytes, hyphens at four places and
/// nothing but hexadecimal digits and hyphens.
pub open spec fn has_uuid_form(s: Seq<char>) -> bool {
    &&& byte_count(s) == 36
    &&& s.len() > 23
    &&& s[8] == '-'
    &&& s[13] == '-'
    &&& s[18] == '-'
    &&& s[23] == '-'
    &&& forall|i: int| 0 <= i < s.len() ==> is_hex_digit(#[trigger] s[i]) || s[i] == '-'
}

/// Whether a text has the form of a UUID.
pub fn is_uuid(s: &str) -> (r: bool)
    ensures
        r == has_uuid_form(s@),
{
    if byte_len(s) != 36 {
        return false;
    }
    let chars = char_vec(s);
    if chars.len() <= 23 || chars[8] != '-' || chars[13] != '-' || chars[18] != '-' || chars[23]
        != '-' {
        return false;
    }
    let mut i: usize = 0;
    while i < chars.len()
        invariant
            i <= chars@.len(),
            chars@ == s@,
            forall|j: int| 0 <= j < i ==> is_hex_digit(#[trigger] s@[j]) || s@[j] == '-',
        decreases chars@.len() - i,
    {
        let c = chars[i];
        let hex = ('0' <= c && c <= '9') || ('a' <= c && c <= 'f') || ('A' <= c && c <= 'F');
        if !hex && c != '-' {
            assert(!is_hex_digit(s@[i as int]));
            return false;
        }
        i += 1;
    }
    true
}

/// A decimal digit.
pub open spec fn is_digit(c: char) -> bool {
    '0' <= c <= '9'
}

/// The number that a list of digits stands for.
pub open spec fn digits_value(digits: Seq<char>) -> nat
    decreases digits.len(),
{
    if digits.len() == 0 {
        0
    } else {
        digits_value(digits.drop_last()) * 10 + (digits.last() as nat - '0' as nat) as nat
    }
}

/// The digits of a numeral, which may begin with a plus sign.
pub open spec fn numeral_digits(s: Seq<char>) -> Seq<char> {
    if s.len() > 0 && s[0] == '+' {
        s.drop_first()
    } else {
        s
    }
}

/// The number that a numeral stands for: decimal digits, at least one, behind
/// a plus sign or not, where the number can be held.
pub open spec fn numeral_value(s: Seq<char>) -> Option<usize> {
    let digits = numeral_digits(s);
    if digits.len() > 0 && (forall|i: int| 0 <= i < digits.len() ==> is_digit(#[trigger] digits[i]))
        && digits_value(digits) <= usize::MAX {
        Some(digits_value(digits) as usize)
    } else {
        None
    }
}

/// The number that a numeral stands for.
pub fn parse_number(s: &str) -> (r: Option<usize>)
    ensures
        r == numeral_value(s@),
{
    let chars = char_vec(s);
    let from: usize = if chars.len() > 0 && chars[0] == '+' {
        1
    } else {
        0
    };
    let ghost digits = numeral_digits(s@);
    assert(digits =~= chars@.skip(from as int));
    if from == chars.len() {
        return None;
    }
    let mut value = CheckedUsize::new(0);
    let mut i: usize = from;
    assert(digits.take(0) =~= Seq::<char>::empty());
    while i < chars.len()
        invariant
            from <= i <= chars@.len(),
            digits == chars@.skip(from as int),
            digits == numeral_digits(s@),
            forall|j: int| 0 <= j < i - from ==> is_digit(#[trigger] digits[j]),
            value@ == digits_value(digits.take(i - from)),
        decreases chars@.len() - i,
    {
        let c = chars[i];
        assert(digits[i - from] == c);
        if c < '0' || c > '9' {
            assert(!is_digit(digits[i - from]));
            return None;
        }
        assert(digits.take(i + 1 - from).drop_last() =~= digits.take(i - from));
        assert(digits.take(i + 1 - from).last() == c);
        let digit: usize = (c as u32 - 48) as usize;
        value = value.mul_value(10).add_value(digit);
        i += 1;
    }
    assert(digits.take(i - from) =~= digits);
    value.to_option()
}

/// The number of dialogs to keep that the arguments from `i` on ask for, where
/// `keep` is what was asked for before; or why they are refused.
pub open spec fn keep_asked(args: Seq<Seq<char>>, i: int, keep: usize) -> Result<usize, Seq<char>>
    decreases args.len() - i,
{
    if i >= args.len() {
        Ok(keep)
    } else if args[i] == "-n"@ && i + 1 < args.len() {
        match numeral_value(args[i + 1]) {
            Some(n) => keep_asked(args, i + 2, n),
            None => Err("Invalid number: "@ + args[i + 1]),
        }
    } else {
        Err("Unknown argument: "@ + args[i])
    }
}

/// What a command line asks for, where `command` is the first argument in
/// lower case; or why it is refused.
pub open spec fn command_asked(args: Seq<Seq<char>>, command: Seq<char>) -> Result<
    CommandModel,
    Seq<char>,
> {
    if command == "list"@ {
        Ok(CommandModel::List)
    } else if command == "clean"@ {
        if args.len() < 3 {
            Err("Usage: zed-context-cleaner clean <thread_id_or_title> [-n N]"@)
        } else {
            match keep_asked(args, 3, 10) {
                Ok(keep_last_n) => Ok(CommandModel::Clean { query: args[2], keep_last_n }),
                Err(e) => Err(e),
            }
        }
    } else if command == "restore"@ {
        if args.len() < 3 {
            Err("Usage: zed-context-cleaner restore <backup_file>"@)
        } else {
            Ok(CommandModel::Restore { backup_file: args[2] })
        }
    } else if command == "version"@ || command == "--version"@ || command == "-v"@ || command
        == "-V"@ {
        Ok(CommandModel::Version)
    } else if command == "help"@ || command == "--help"@ || command == "-h"@ {
        Ok(CommandModel::Help)
    } else {
        Err("Unknown command: '"@ + command + "'. Use 'help' for usage."@)
    }
}

/// The texts of a list of arguments.
pub open spec fn arg_texts(args: Seq<String>) -> Seq<Seq<char>> {
    Seq::new(args.len(), |i: int| args[i]@)
}

fn parse_keep(args: &Vec<String>) -> (r: Result<usize, String>)
    requires
        args@.len() >= 3,
    ensures
        match r {
            Ok(n) => keep_asked(arg_texts(args@), 3, 10) == Ok::<usize, Seq<char>>(n),
            Err(e) => keep_asked(arg_texts(args@), 3, 10) == Err::<usize, Seq<char>>(e@),
        },
{
    let ghost texts = arg_texts(args@);
    let len: usize = args.len();
    let mut keep: usize = 10;
    let mut i: usize = 3;
    while i < len
        invariant
            3 <= i <= len,
            len == args@.len(),
            texts == arg_texts(args@),
            keep_asked(texts, 3, 10) == keep_asked(texts, i as int, keep),
        decreases len - i,
    {
        assert(texts[i as int] == args@[i as int]@);
        if same_text(args[i].as_str(), "-n") && len - i > 1 {
            assert(texts[i + 1] == args@[i + 1]@);
            match parse_number(args[i + 1].as_str()) {
                Some(n) => {
                    keep = n;
                },
                None => {
                    return Err(joined("Invalid number: ", args[i + 1].as_str()));
                },
            }
            i += 2;
        } else {
            return Err(joined("Unknown argument: ", args[i].as_str()));
        }
    }
    Ok(keep)
}

/// What a command line asks for, given its first argument in lower case.
pub fn parse_command_given(args: &Vec<String>, command: &str) -> (r: Result<Command, String>)
    ensures
        match r {
            Ok(c) => command_asked(arg_texts(args@), command@) == Ok::<CommandModel, Seq<char>>(
                c@,
            ),
            Err(e) => command_asked(arg_texts(args@), command@) == Err::<CommandModel, Seq<char>>(
                e@,
            ),
        },
{
    if same_text(command, "list") {
        Ok(Command::List)
    } else if same_text(command, "clean") {
        if args.len() < 3 {
            return Err("Usage: zed-context-cleaner clean <thread_id_or_title> [-n N]".to_owned());
        }
        match parse_keep(args) {
            Ok(keep_last_n) => Ok(Command::Clean { query: args[2].clone(), keep_last_n }),
            Err(e) => Err(e),
        }
    } else if same_text(command, "restore") {
        if args.len() < 3 {
            return Err("Usage: zed-context-cleaner restore <backup_file>".to_owned());
        }
        Ok(Command::Restore { backup_file: args[2].clone() })
    } else if same_text(command, "version") || same_text(command, "--version") || same_text(
        command,
        "-v",
    ) || same_text(command, "-V") {
        Ok(Command::Version)
    } else if same_text(command, "help") || same_text(command, "--help") || same_text(
        command,
        "-h",
    ) {
        Ok(Command::Help)
    } else {
        let mut e = joined("Unknown command: '", command);
        e.append("'. Use 'help' for usage.");
        Err(e)
    }
}

/// What a command line asks for. The first of `args` is the program itself, so
/// there must be a second.
pub fn parse_command(args: &Vec<String>) -> (r: Result<Command, String>)
    requires
        args@.len() > 1,
    ensures
        match r {
            Ok(c) => command_asked(arg_texts(args@), lowercase(args@[1]@)) == Ok::<
                CommandModel,
                Seq<char>,
            >(c@),
            Err(e) => command_asked(arg_texts(args@), lowercase(args@[1]@)) == Err::<
                CommandModel,
                Seq<char>,
            >(e@),
        },
{
    let command = args[1].as_str().to_lowercase();
    parse_command_given(args, command.as_str())
}

/// Whether a title matches a query, both in lower case already.
pub fn title_matches(summary_lower: &str, query_lower: &str) -> (r: bool)
    ensures
        r == occurs(summary_lower@, query_lower@),
{
    contains_text(summary_lower, query_lower)
}

/// The places of the threads whose title holds the query, letter case aside.
pub open spec fn title_hits(threads: Seq<ThreadMeta>, query: Seq<char>) -> Seq<usize>
    decreases threads.len(),
{
    if threads.len() == 0 {
        Seq::empty()
    } else {
        let before = title_hits(threads.drop_last(), query);
        if occurs(lowercase(threads.last().summary@), lowercase(query)) {
            before.push((threads.len() - 1) as usize)
        } else {
            before
        }
    }
}

/// The threads that a title means, by their places.
#[derive(Debug)]
pub enum TitleMatch {
    Nothing,
    One(usize),
    Several(Vec<usize>),
}

/// Which threads have the query in their title, letter case aside.
pub fn match_title(threads: &Vec<ThreadMeta>, query: &str) -> (r: TitleMatch)
    ensures
        match r {
            TitleMatch::Nothing => title_hits(threads@, query@) == Seq::<usize>::empty(),
            TitleMatch::One(i) => title_hits(threads@, query@) == seq![i] && i < threads@.len(),
            TitleMatch::Several(list) => title_hits(threads@, query@) == list@ && list@.len() > 1
                && forall|k: int| 0 <= k < list@.len() ==> #[trigger] list@[k] < threads@.len(),
        },
{
    let query_lower = query.to_lowercase();
    let mut hits: Vec<usize> = Vec::new();
    let mut i: usize = 0;
    assert(threads@.take(0) =~= Seq::<ThreadMeta>::empty());
    while i < threads.len()
        invariant
            i <= threads@.len(),
            query_lower@ == lowercase(query@),
            hits@ == title_hits(threads@.take(i as int), query@),
            forall|k: int| 0 <= k < hits@.len() ==> #[trigger] hits@[k] < i,
        decreases threads@.len() - i,
    {
        assert(threads@.take(i + 1).drop_last() =~= threads@.take(i as int));
        assert(threads@.take(i + 1).last() == threads@[i as int]);
        let summary_lower = threads[i].summary.as_str().to_lowercase();
        if title_matches(summary_lower.as_str(), query_lower.as_str()) {
            hits.push(i);
        }
        i += 1;
    }
    assert(threads@.take(i as int) =~= threads@);
    if hits.len() == 0 {
        assert(hits@ =~= Seq::<usize>::empty());
        TitleMatch::Nothing
    } else if hits.len() == 1 {
        assert(hits@ =~= seq![hits@[0]]);
        TitleMatch::One(hits[0])
    } else {
        TitleMatch::Several(hits)
    }
}

proof fn lemma_hits(threads: Seq<ThreadMeta>, query: Seq<char>)
    requires
        threads.len() <= usize::MAX,
    ensures
        ({
            let hits = title_hits(threads, query);
            &&& forall|k: int|
                0 <= k < hits.len() ==> has_title_at(threads, query, #[trigger] hits[k] as int)
            &&& forall|i: int|
                #[trigger] has_title_at(threads, query, i) ==> hits.contains(i as usize)
            &&& forall|k: int, l: int|
                0 <= k < l < hits.len() ==> #[trigger] hits[k] < #[trigger] hits[l]
        }),
    decreases threads.len(),
{
    let hits = title_hits(threads, query);
    if threads.len() > 0 {
        let rest = threads.drop_last();
        let before = title_hits(rest, query);
        let last = threads.len() - 1;
        lemma_hits(rest, query);
        assert(forall|i: int| 0 <= i < last ==> rest[i] == threads[i]);
        assert forall|k: int| 0 <= k < hits.len() implies has_title_at(
            threads,
            query,
            #[trigger] hits[k] as int,
        ) by {
            if k < before.len() {
                assert(hits[k] == before[k]);
                assert(has_title_at(rest, query, before[k] as int));
            }
        }
        assert forall|i: int| #[trigger] has_title_at(threads, query, i) implies hits.contains(
            i as usize,
        ) by {
            if i < last {
                assert(has_title_at(rest, query, i));
                let k = choose|k: int| 0 <= k < before.len() && before[k] == i as usize;
                assert(hits[k] == i as usize);
            } else {
                assert(hits[hits.len() - 1] == i as usize);
            }
        }
        assert forall|k: int, l: int| 0 <= k < l < hits.len() implies #[trigger] hits[k]
            < #[trigger] hits[l] by {
            assert(hits[k] == before[k]);
            assert(has_title_at(rest, query, before[k] as int));
            if l < before.len() {
                assert(hits[l] == before[l]);
            }
        }
    }
}

/// What a thread identifier on the command line stands for.
#[derive(Debug)]
pub enum Resolution {
    /// The id itself.
    Id(String),
    /// The one thread with a matching title, by its place, and its id.
    Found { place: usize, id: String },
    /// No title matches.
    NotFound { message: String },
    /// Several titles match, by their places.
    Ambiguous { places: Vec<usize>, message: String },
}

/// The title of the thread at `i` holds the query, letter case aside.
pub open spec fn has_title_at(threads: Seq<ThreadMeta>, query: Seq<char>, i: int) -> bool {
    0 <= i < threads.len() && occurs(lowercase(threads[i].summary@), lowercase(query))
}

/// What a query stands for: a UUID for itself, and anything else for the one
/// thread whose title holds it, for none or for several.
pub open spec fn stands_for(r: Resolution, query: Seq<char>, threads: Seq<ThreadMeta>) -> bool {
    if has_uuid_form(query) {
        r matches Resolution::Id(id) && id@ == query
    } else {
        match r {
            Resolution::Id(_) => false,
            Resolution::Found { place, id } => {
                &&& has_title_at(threads, query, place as int)
                &&& id@ == threads[place as int].id@
                &&& forall|i: int| #[trigger] has_title_at(threads, query, i) ==> i == place
            },
            Resolution::NotFound { .. } => forall|i: int|
                !#[trigger] has_title_at(threads, query, i),
            Resolution::Ambiguous { places, .. } => {
                &&& places@.len() > 1
                &&& forall|k: int|
                    0 <= k < places@.len() ==> has_title_at(
                        threads,
                        query,
                        #[trigger] places@[k] as int,
                    )
                &&& forall|i: usize|
                    #![trigger places@.contains(i)]
                    has_title_at(threads, query, i as int) ==> places@.contains(i)
                &&& forall|k: int, l: int|
                    0 <= k < l < places@.len() ==> #[trigger] places@[k] < #[trigger] places@[l]
            },
        }
    }
}

/// Resolves a thread identifier: a UUID is used directly, and anything else is
/// searched for in the titles, letter case aside.
pub fn resolve_thread_id(query: &str, threads: &Vec<ThreadMeta>) -> (r: Resolution)
    ensures
        r is Id <==> has_uuid_form(query@),
        match r {
            Resolution::Id(id) => id@ == query@,
            Resolution::Found { place, id } => {
                &&& title_hits(threads@, query@) == seq![place]
                &&& place < threads@.len()
                &&& id@ == threads@[place as int].id@
            },
            Resolution::NotFound { message } => {
                &&& title_hits(threads@, query@) == Seq::<usize>::empty()
                &&& message@ == "No thread found matching '"@ + query@ + "'"@
            },
            Resolution::Ambiguous { places, message } => {
                &&& title_hits(threads@, query@) == places@
                &&& places@.len() > 1
                &&& forall|k: int| 0 <= k < places@.len() ==> #[trigger] places@[k] < threads@.len()
                &&& message@ == "Be more specific or use the full thread ID."@
            },
        },
        stands_for(r, query@, threads@),
{
    if is_uuid(query) {
        return Resolution::Id(query.to_owned());
    }
    let count: usize = threads.len();
    let ghost hits = title_hits(threads@, query@);
    proof {
        assert(threads@.len() == count);
        lemma_hits(threads@, query@);
    }
    match match_title(threads, query) {
        TitleMatch::Nothing => {
            let mut message = joined("No thread found matching '", query);
            message.append("'");
            Resolution::NotFound { message }
        },
        TitleMatch::One(place) => {
            proof {
                assert(hits[0] == place);
                assert forall|i: int| #[trigger] has_title_at(threads@, query@, i) implies i
                    == place by {
                    let k = choose|k: int| 0 <= k < hits.len() && hits[k] == i as usize;
                    assert(k == 0);
                }
            }
            Resolution::Found { place, id: threads[place].id.clone() }
        },
        TitleMatch::Several(places) => Resolution::Ambiguous {
            places,
            message: "Be more specific or use the full thread ID.".to_owned(),
        },
    }
}

/// A summary cut down to one line of a list: one of more than 60 bytes keeps
/// its first 57 characters.
pub open spec fn shortened(s: Seq<char>) -> Seq<char> {
    if byte_count(s) > 60 {
        first_chars(s, 57) + "..."@
    } else {
        s
    }
}

/// A summary as a list shows it.
pub open spec fn listed_summary(s: Seq<char>) -> Seq<char> {
    if s.len() == 0 {
        "(no summary)"@
    } else {
        shortened(s)
    }
}

/// A summary cut down to one line of a list.
pub fn shorten_summary(summary: &str) -> (r: String)
    ensures
        r@ == shortened(summary@),
{
    if byte_len(summary) <= 60 {
        return summary.to_owned();
    }
    let chars = char_vec(summary);
    let to: usize = if chars.len() <= 57 {
        chars.len()
    } else {
        57
    };
    let mut out = text_of_chars(&chars, 0, to);
    assert(chars@.subrange(0, to as int) =~= first_chars(summary@, 57));
    out.append("...");
    out
}

/// A summary as a list shows it.
pub fn list_summary(summary: &str) -> (r: String)
    ensures
        r@ == listed_summary(summary@),
{
    if summary.is_empty() {
        "(no summary)".to_owned()
    } else {
        shorten_summary(summary)
    }
}

/// Why a backup cannot be restored.
#[derive(Debug)]
pub enum RestoreError {
    InvalidJson(serde_json::Error),
    /// The file name does not begin with the id of a thread.
    NoThreadId,
    /// The database does not have the thread.
    NotInDatabase,
    /// zstd refused the text.
    Compression(std::io::Error),
}

/// What a restore writes into the row of a thread.
#[derive(Debug)]
pub struct RowUpdate {
    pub thread_id: String,
    pub data_type: String,
    pub data: Vec<u8>,
}

/// The outcome of the check of a backup with the name `stem` and the text
/// `json`: the id that its name begins with, or what is wrong, the text before
/// the name.
pub open spec fn is_restore_check(
    r: Result<String, RestoreError>,
    stem: Seq<char>,
    json: Seq<char>,
) -> bool {
    match r {
        Ok(id) => parsed_json(json) is Some && names_a_thread(stem) && id@ == leading_id(stem),
        Err(RestoreError::InvalidJson(_)) => parsed_json(json) is None,
        Err(RestoreError::NoThreadId) => parsed_json(json) is Some && !names_a_thread(stem),
        Err(_) => false,
    }
}

/// Checks a backup before it is restored: its text must be JSON and its name,
/// without the extension, must begin with the id of its thread, which is
/// returned.
pub fn check_restore(stem: &str, json: &str) -> (r: Result<String, RestoreError>)
    requires
        names_a_thread(stem@) ==> is_char_boundary(encode_utf8(stem@), 36),
    ensures
        is_restore_check(r, stem@, json@),
{
    match validate_backup(json) {
        Err(BackupError::InvalidJson(e)) => Err(RestoreError::InvalidJson(e)),
        Ok(()) => match thread_id_of_backup(stem) {
            Some(id) => Ok(id),
            None => Err(RestoreError::NoThreadId),
        },
    }
}

/// The row of a thread with a text in it: compressed, under the id of the
/// thread.
pub open spec fn is_row_with(update: RowUpdate, thread_id: Seq<char>, json: Seq<char>) -> bool {
    &&& update.thread_id@ == thread_id
    &&& update.data_type@ == "zstd"@
    &&& zstd_frame(encode_utf8(json), 3) == Some(update.data@)
    &&& blob_text(update.data@, update.data_type@) == Some(json)
}

/// The outcome of a restore: the row to write, or why there is none.
pub open spec fn is_restore_plan(
    r: Result<RowUpdate, RestoreError>,
    thread_id: Seq<char>,
    in_database: bool,
    json: Seq<char>,
) -> bool {
    match r {
        Ok(update) => in_database && is_row_with(update, thread_id, json),
        Err(RestoreError::NotInDatabase) => !in_database,
        Err(RestoreError::Compression(_)) => in_database && zstd_frame(
            encode_utf8(json),
            3,
        ) is None,
        Err(_) => false,
    }
}

/// What a restore writes: the text of the backup, compressed, into the row of
/// its thread.
pub fn row_update(thread_id: &str, json: &str) -> (r: Result<RowUpdate, std::io::Error>)
    ensures
        match r {
            Ok(update) => is_row_with(update, thread_id@, json@),
            Err(_) => zstd_frame(encode_utf8(json@), 3) is None,
        },
{
    match compress_text(json) {
        Ok(data) => Ok(
            RowUpdate { thread_id: thread_id.to_owned(), data_type: "zstd".to_owned(), data },
        ),
        Err(e) => Err(e),
    }
}

/// What a restore writes, where the database has the thread. Where the restore
/// fails, there is nothing to write.
pub fn plan_restore(thread_id: &str, in_database: bool, json: &str) -> (r: Result<
    RowUpdate,
    RestoreError,
>)
    ensures
        is_restore_plan(r, thread_id@, in_database, json@),
{
    if !in_database {
        return Err(RestoreError::NotInDatabase);
    }
    match row_update(thread_id, json) {
        Ok(update) => Ok(update),
        Err(e) => Err(RestoreError::Compression(e)),
    }
}

/// A UUID can be read back from the name of a backup, which meets what the
/// check of a restore asks of it.
pub proof fn law_uuids_lead_back(id: Seq<char>, title: Option<Seq<char>>, timestamp: Seq<char>)
    requires
        has_uuid_form(id),
    ensures
        names_a_thread(backup_stem(id, title, timestamp)),
        is_char_boundary(encode_utf8(backup_stem(id, title, timestamp)), 36),
        leading_id(backup_stem(id, title, timestamp)) == id,
{
    law_backup_names_lead_back(id, title, timestamp);
}

/// A backup of a thread can be restored: the id that is read from its name is
/// the thread's, and what is written for it decodes to the text of the backup.
/// Where the value of the thread had only integers, the text passes the check
/// of a restore and the row holds that value again.
pub proof fn law_a_restore_brings_the_thread_back(
    id: Seq<char>,
    title: Option<Seq<char>>,
    timestamp: Seq<char>,
    raw_json: Seq<char>,
    text: Seq<char>,
    data: Seq<u8>,
)
    requires
        has_uuid_form(id),
        is_backup_text(text, raw_json),
        blob_text(data, "zstd"@) == Some(text),
    ensures
        names_a_thread(backup_stem(id, title, timestamp)),
        is_char_boundary(encode_utf8(backup_stem(id, title, timestamp)), 36),
        leading_id(backup_stem(id, title, timestamp)) == id,
        zstd_content(data) == Some(encode_utf8(text)),
        has_only_integers(parsed_json(raw_json)->0) ==> {
            &&& parsed_json(text) is Some
            &&& blob_value(data, "zstd"@) == parsed_json(raw_json)
        },
{
    law_uuids_lead_back(id, title, timestamp);
    decode_utf8_encode_utf8(blob_bytes(data, "zstd"@)->0);
}

/// A UUID is plain ASCII: as many characters as bytes.
pub proof fn law_uuids_have_36_characters(s: Seq<char>)
    requires
        has_uuid_form(s),
    ensures
        s.len() == 36,
{
    lemma_ascii_len(s);
}

proof fn lemma_ascii_len(s: Seq<char>)
    requires
        forall|i: int| 0 <= i < s.len() ==> is_hex_digit(#[trigger] s[i]) || s[i] == '-',
    ensures
        byte_count(s) == s.len(),
    decreases s.len(),
{
    if s.len() > 0 {
        assert forall|i: int| 0 <= i < s.drop_first().len() implies is_hex_digit(
            #[trigger] s.drop_first()[i],
        ) || s.drop_first()[i] == '-' by {
            assert(s.drop_first()[i] == s[i + 1]);
        }
        lemma_ascii_len(s.drop_first());
        assert(is_hex_digit(s[0]) || s[0] == '-');
        assert(encode_scalar(s[0] as u32).len() == 1);
    }
}

} // verus!
