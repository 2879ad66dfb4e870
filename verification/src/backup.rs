//! Backups: how their files are named, found and put in order, and the text
//! that they hold.
use crate::chars::{
    alphanumeric, char_vec, chars_at, contains_text, occurs, occurs_at, text_of_chars, whitespace,
};
use crate::json::{has_only_integers, parse_json, parsed_json, pretty_json, pretty_text};
use crate::text::{
    byte_count, byte_len, fitting_chars, lemma_boundary_is_prefix, lemma_encode_concat,
    lemma_encode_injective, same_text,
};
use vstd::prelude::*;
use vstd::string::*;
use vstd::utf8::*;

verus! {

/// Whether a character of a title goes into a file name.
pub open spec fn is_title_char(c: char) -> bool {
    alphanumeric(c) || c == '-' || c == '_' || c == ' '
}

/// The first characters of a list, at most `n` of them.
pub open spec fn first_chars(s: Seq<char>, n: nat) -> Seq<char> {
    if s.len() <= n {
        s
    } else {
        s.take(n as int)
    }
}

/// A text without the whitespace that it ends with.
pub open spec fn trimmed_end(s: Seq<char>) -> Seq<char>
    decreases s.len(),
{
    if s.len() > 0 && whitespace(s.last()) {
        trimmed_end(s.drop_last())
    } else {
        s
    }
}

/// A text without the whitespace that it begins with.
pub open spec fn trimmed_start(s: Seq<char>) -> Seq<char>
    decreases s.len(),
{
    if s.len() > 0 && whitespace(s[0]) {
        trimmed_start(s.drop_first())
    } else {
        s
    }
}

/// A text with underscores in place of spaces.
pub open spec fn underscored(s: Seq<char>) -> Seq<char> {
    Seq::new(
        s.len(),
        |i: int|
            if s[i] == ' ' {
                '_'
            } else {
                s[i]
            },
    )
}

/// A title as it stands in a file name: its first 40 admissible characters,
/// trimmed, with underscores in place of spaces.
pub open spec fn safe_title(title: Seq<char>) -> Seq<char> {
    underscored(
        trimmed_end(trimmed_start(first_chars(title.filter(|c: char| is_title_char(c)), 40))),
    )
}

/// The name of a backup file without its extension.
pub open spec fn backup_stem(id: Seq<char>, title: Option<Seq<char>>, timestamp: Seq<char>) -> Seq<
    char,
> {
    let shown = match title {
        Some(t) => t,
        None => "untitled"@,
    };
    id + "_"@ + safe_title(shown) + "_"@ + timestamp
}

/// The name of a backup file.
pub open spec fn backup_name(id: Seq<char>, title: Option<Seq<char>>, timestamp: Seq<char>) -> Seq<
    char,
> {
    backup_stem(id, title, timestamp) + ".json"@
}

/// Whether the stem of a file name begins like a backup of a thread: 36 bytes
/// at least, the ninth character a hyphen.
pub open spec fn names_a_thread(stem: Seq<char>) -> bool {
    byte_count(stem) >= 36 && stem.len() > 8 && stem[8] == '-'
}

/// The first 36 bytes of the stem of a file name.
pub open spec fn leading_id(stem: Seq<char>) -> Seq<char> {
    stem.take(fitting_chars(stem, 36) as int)
}

/// The admissible characters of a title, at most `limit` of them.
fn keep_title_chars(title: &Vec<char>, limit: usize) -> (r: Vec<char>)
    ensures
        r@ == first_chars(title@.filter(|c: char| is_title_char(c)), limit as nat),
{
    let ghost admissible = |c: char| is_title_char(c);
    let mut out: Vec<char> = Vec::new();
    let mut i: usize = 0;
    proof {
        reveal(Seq::filter);
        assert(title@.take(0) =~= Seq::<char>::empty());
        assert(out@ =~= first_chars(title@.take(0).filter(admissible), limit as nat));
    }
    while i < title.len()
        invariant
            i <= title@.len(),
            admissible == (|c: char| is_title_char(c)),
            out@ == first_chars(title@.take(i as int).filter(admissible), limit as nat),
        decreases title@.len() - i,
    {
        proof {
            reveal(Seq::filter);
            assert(title@.take(i + 1).drop_last() =~= title@.take(i as int));
            assert(title@.take(i + 1).last() == title@[i as int]);
        }
        let ghost before = title@.take(i as int).filter(admissible);
        let c = title[i];
        if c.is_alphanumeric() || c == '-' || c == '_' || c == ' ' {
            if out.len() < limit {
                out.push(c);
            } else {
                assert(first_chars(before, limit as nat) =~= first_chars(
                    before.push(c),
                    limit as nat,
                ));
            }
        }
        assert(out@ =~= first_chars(title@.take(i + 1).filter(admissible), limit as nat));
        i += 1;
    }
    assert(title@.take(i as int) =~= title@);
    out
}

/// A title as it stands in a file name.
pub fn sanitize_title(title: &str) -> (r: String)
    ensures
        r@ == safe_title(title@),
{
    let kept = keep_title_chars(&char_vec(title), 40);
    let mut from: usize = 0;
    assert(kept@.skip(0) =~= kept@);
    while from < kept.len() && kept[from].is_whitespace()
        invariant
            from <= kept@.len(),
            trimmed_start(kept@) == trimmed_start(kept@.skip(from as int)),
        decreases kept@.len() - from,
    {
        assert(kept@.skip(from as int).drop_first() =~= kept@.skip(from + 1));
        from += 1;
    }
    let ghost started = kept@.skip(from as int);
    assert(trimmed_start(kept@) == started);
    let mut to: usize = kept.len();
    assert(started =~= kept@.subrange(from as int, to as int));
    while to > from && kept[to - 1].is_whitespace()
        invariant
            from <= to <= kept@.len(),
            trimmed_end(started) == trimmed_end(kept@.subrange(from as int, to as int)),
        decreases to,
    {
        assert(kept@.subrange(from as int, to as int).drop_last() =~= kept@.subrange(
            from as int,
            to - 1,
        ));
        to -= 1;
    }
    let ghost trimmed = kept@.subrange(from as int, to as int);
    assert(trimmed_end(started) == trimmed);
    let mut out = String::new();
    let mut i: usize = from;
    assert(out@ =~= underscored(trimmed).take(0));
    while i < to
        invariant
            from <= i <= to <= kept@.len(),
            trimmed == kept@.subrange(from as int, to as int),
            out@ == underscored(trimmed).take(i - from),
        decreases to - i,
    {
        assert(trimmed[i - from] == kept@[i as int]);
        if kept[i] == ' ' {
            out.push('_');
        } else {
            out.push(kept[i]);
        }
        assert(out@ =~= underscored(trimmed).take(i + 1 - from));
        i += 1;
    }
    assert(out@ =~= underscored(trimmed));
    out
}

/// The name of a backup file: the id and the title of the thread and the time
/// of the backup.
pub fn backup_filename(thread_id: &str, title: Option<&str>, timestamp: &str) -> (r: String)
    ensures
        r@ == backup_name(
            thread_id@,
            match title {
                Some(t) => Some(t@),
                None => None,
            },
            timestamp@,
        ),
{
    let shown: &str = match title {
        Some(t) => t,
        None => "untitled",
    };
    let mut out = thread_id.to_owned();
    out.append("_");
    out.append(sanitize_title(shown).as_str());
    out.append("_");
    out.append(timestamp);
    out.append(".json");
    out
}

/// The id of the thread that a backup file is of, told from the name of the
/// file without its extension.
pub fn thread_id_of_backup(stem: &str) -> (r: Option<String>)
    requires
        names_a_thread(stem@) ==> is_char_boundary(encode_utf8(stem@), 36),
    ensures
        match r {
            Some(id) => names_a_thread(stem@) && id@ == leading_id(stem@),
            None => !names_a_thread(stem@),
        },
{
    if byte_len(stem) < 36 {
        return None;
    }
    let chars = char_vec(stem);
    if chars.len() <= 8 || chars[8] != '-' {
        return None;
    }
    let (id, _rest) = stem.split_at(36);
    proof {
        lemma_boundary_is_prefix(stem@, 36, 36);
        lemma_encode_injective(id@, leading_id(stem@));
    }
    Some(id.to_owned())
}

/// A file in the directory of the backups.
#[derive(Debug)]
pub struct BackupFile {
    pub name: String,
    /// What stands behind the last dot of the name.
    pub extension: Option<String>,
}

/// Whether a file is a backup of a thread: a JSON file with the thread's id in
/// its name.
pub open spec fn is_backup_of(file: BackupFile, id: Seq<char>) -> bool {
    &&& file.extension is Some
    &&& file.extension->0@ == "json"@
    &&& occurs(file.name@, id)
}

/// The order of texts: by their bytes, the first that differ deciding.
pub open spec fn bytes_before(a: Seq<u8>, b: Seq<u8>) -> bool
    decreases a.len(),
{
    if b.len() == 0 {
        false
    } else if a.len() == 0 {
        true
    } else if a[0] != b[0] {
        a[0] < b[0]
    } else {
        bytes_before(a.drop_first(), b.drop_first())
    }
}

/// A file name ends in ".json".
pub open spec fn ends_in_json(s: Seq<char>) -> bool {
    s.len() >= 5 && s.subrange(s.len() - 5, s.len() as int) == seq!['.', 'j', 's', 'o', 'n']
}

/// A file name without its ending ".json".
pub open spec fn json_stem(name: Seq<char>) -> Seq<char> {
    if ends_in_json(name) {
        name.take(name.len() - 5)
    } else {
        name
    }
}

/// The time of a backup as it stands in a file name: eight digits for the day,
/// an underscore and six digits for the time of day. Such times order as
/// texts do.
pub open spec fn is_timestamp(s: Seq<char>) -> bool {
    &&& s.len() == 15
    &&& forall|i: int|
        0 <= i < 15 ==> if i == 8 {
            (#[trigger] s[i]) == '_'
        } else {
            '0' <= s[i] <= '9'
        }
}

/// The time at the end of a file name; nothing where none stands there.
pub open spec fn backup_time(name: Seq<char>) -> Seq<char> {
    let stem = json_stem(name);
    if stem.len() >= 15 && is_timestamp(stem.skip(stem.len() - 15)) {
        stem.skip(stem.len() - 15)
    } else {
        Seq::empty()
    }
}

/// A file is older than another: by the time in its name, and where the times
/// are the same by the name. A file without a time is older than one with.
pub open spec fn is_older(a: BackupFile, b: BackupFile) -> bool {
    let x = encode_utf8(backup_time(a.name@));
    let y = encode_utf8(backup_time(b.name@));
    bytes_before(x, y) || (x == y && bytes_before(encode_utf8(a.name@), encode_utf8(b.name@)))
}

/// Two listed files stand in the right order: the first is not older, and of
/// equal names the one found first comes first.
pub open spec fn in_order(files: Seq<BackupFile>, i: usize, j: usize) -> bool {
    &&& !is_older(files[i as int], files[j as int])
    &&& files[i as int].name@ == files[j as int].name@ ==> i < j
}

/// A list of the backups of a thread among `files`, newest first, whatever
/// their titles.
pub open spec fn lists_backups(list: Seq<usize>, files: Seq<BackupFile>, id: Seq<char>) -> bool {
    &&& forall|k: int|
        0 <= k < list.len() ==> (#[trigger] list[k]) < files.len() && is_backup_of(
            files[list[k] as int],
            id,
        )
    &&& forall|i: usize|
        i < files.len() && is_backup_of(#[trigger] files[i as int], id) ==> list.contains(i)
    &&& forall|k: int, l: int|
        0 <= k < l < list.len() ==> (#[trigger] list[k]) != (#[trigger] list[l]) && in_order(
            files,
            list[k],
            list[l],
        )
}

/// Whether a text stands before another in the order of their bytes.
pub fn text_before(a: &str, b: &str) -> (r: bool)
    ensures
        r == bytes_before(encode_utf8(a@), encode_utf8(b@)),
{
    let x = a.as_bytes();
    let y = b.as_bytes();
    let mut i: usize = 0;
    assert(x@.skip(0) =~= x@);
    assert(y@.skip(0) =~= y@);
    while i < x.len() && i < y.len()
        invariant
            i <= x@.len(),
            i <= y@.len(),
            x@ == encode_utf8(a@),
            y@ == encode_utf8(b@),
            bytes_before(x@, y@) == bytes_before(x@.skip(i as int), y@.skip(i as int)),
        decreases x@.len() - i,
    {
        assert(x@.skip(i as int)[0] == x@[i as int]);
        assert(y@.skip(i as int)[0] == y@[i as int]);
        if x[i] != y[i] {
            return x[i] < y[i];
        }
        assert(x@.skip(i as int).drop_first() =~= x@.skip(i + 1));
        assert(y@.skip(i as int).drop_first() =~= y@.skip(i + 1));
        i += 1;
    }
    i < y.len()
}

/// The order of texts is strict, total and transitive.
proof fn lemma_order(a: Seq<u8>, b: Seq<u8>, c: Seq<u8>)
    ensures
        bytes_before(a, b) ==> !bytes_before(b, a),
        !bytes_before(a, b) && !bytes_before(b, c) ==> !bytes_before(a, c),
        !bytes_before(a, b) && !bytes_before(b, a) ==> a == b,
        !bytes_before(a, a),
    decreases a.len() + b.len() + c.len(),
{
    if a.len() > 0 && b.len() > 0 && c.len() > 0 {
        lemma_order(a.drop_first(), b.drop_first(), c.drop_first());
    } else if a.len() > 0 && b.len() > 0 {
        lemma_order(a.drop_first(), b.drop_first(), c);
    } else if a.len() > 0 {
        lemma_order(a.drop_first(), b, c);
    }
    if !bytes_before(a, b) && !bytes_before(b, a) {
        if a.len() > 0 && b.len() > 0 {
            assert(a =~= seq![a[0]] + a.drop_first());
            assert(b =~= seq![b[0]] + b.drop_first());
        } else {
            assert(a =~= b);
        }
    }
}

/// The order of files is strict and transitive.
proof fn lemma_older(a: BackupFile, b: BackupFile, c: BackupFile)
    ensures
        is_older(a, b) ==> !is_older(b, a) && a.name@ != b.name@,
        !is_older(a, b) && !is_older(b, c) ==> !is_older(a, c),
{
    let x = encode_utf8(backup_time(a.name@));
    let y = encode_utf8(backup_time(b.name@));
    let z = encode_utf8(backup_time(c.name@));
    lemma_order(x, y, z);
    lemma_order(y, z, x);
    lemma_order(
        encode_utf8(a.name@),
        encode_utf8(b.name@),
        encode_utf8(c.name@),
    );
}

/// The time at the end of a file name; nothing where none stands there.
pub fn time_of_backup(file_name: &str) -> (r: String)
    ensures
        r@ == backup_time(file_name@),
{
    let chars = char_vec(file_name);
    let ending = char_vec(".json");
    proof {
        reveal_strlit(".json");
        assert(ending@ =~= seq!['.', 'j', 's', 'o', 'n']);
    }
    let len: usize = chars.len();
    let to: usize = if len >= 5 && chars_at(&chars, &ending, len - 5) {
        len - 5
    } else {
        len
    };
    let ghost stem = json_stem(file_name@);
    assert(stem =~= chars@.take(to as int));
    if to < 15 {
        return String::new();
    }
    let from: usize = to - 15;
    let ghost tail = stem.skip(stem.len() - 15);
    assert(tail =~= chars@.subrange(from as int, to as int));
    let mut i: usize = 0;
    while i < 15
        invariant
            i <= 15,
            from + 15 == to,
            to <= chars@.len(),
            tail == chars@.subrange(from as int, to as int),
            stem == json_stem(file_name@),
            stem.len() == to,
            tail == stem.skip(stem.len() - 15),
            forall|j: int|
                0 <= j < i ==> if j == 8 {
                    (#[trigger] tail[j]) == '_'
                } else {
                    '0' <= tail[j] <= '9'
                },
        decreases 15 - i,
    {
        let c = chars[from + i];
        assert(tail[i as int] == c);
        let fits = if i == 8 {
            c == '_'
        } else {
            '0' <= c && c <= '9'
        };
        if !fits {
            assert(!is_timestamp(tail));
            return String::new();
        }
        i += 1;
    }
    text_of_chars(&chars, from, to)
}

fn older_file(a: &BackupFile, b: &BackupFile) -> (r: bool)
    ensures
        r == is_older(*a, *b),
{
    let x = time_of_backup(a.name.as_str());
    let y = time_of_backup(b.name.as_str());
    if text_before(x.as_str(), y.as_str()) {
        return true;
    }
    let same = same_text(x.as_str(), y.as_str());
    proof {
        if encode_utf8(x@) == encode_utf8(y@) {
            lemma_encode_injective(x@, y@);
        }
    }
    same && text_before(a.name.as_str(), b.name.as_str())
}

/// The backups of a thread among the files of a directory, by their places,
/// newest first.
pub fn select_backups(files: &Vec<BackupFile>, thread_id: &str) -> (r: Vec<usize>)
    ensures
        lists_backups(r@, files@, thread_id@),
{
    let mut list: Vec<usize> = Vec::new();
    let mut i: usize = 0;
    while i < files.len()
        invariant
            i <= files@.len(),
            forall|k: int|
                0 <= k < list@.len() ==> (#[trigger] list@[k]) < i && is_backup_of(
                    files@[list@[k] as int],
                    thread_id@,
                ),
            forall|j: usize|
                j < i && is_backup_of(#[trigger] files@[j as int], thread_id@) ==> list@.contains(
                    j,
                ),
            forall|k: int, l: int|
                0 <= k < l < list@.len() ==> (#[trigger] list@[k]) != (#[trigger] list@[l])
                    && in_order(files@, list@[k], list@[l]),
        decreases files@.len() - i,
    {
        let wanted = match &files[i].extension {
            Some(extension) => same_text(extension.as_str(), "json") && contains_text(
                files[i].name.as_str(),
                thread_id,
            ),
            None => false,
        };
        assert(wanted == is_backup_of(files@[i as int], thread_id@));
        if wanted {
            insert_backup(&mut list, files, i);
        }
        i += 1;
    }
    list
}

/// Puts a file into its place among the files before it.
fn insert_backup(list: &mut Vec<usize>, files: &Vec<BackupFile>, i: usize)
    requires
        i < files@.len(),
        forall|k: int| 0 <= k < old(list)@.len() ==> (#[trigger] old(list)@[k]) < i,
        forall|k: int, l: int|
            0 <= k < l < old(list)@.len() ==> (#[trigger] old(list)@[k]) != (
            #[trigger] old(list)@[l]) && in_order(files@, old(list)@[k], old(list)@[l]),
    ensures
        final(list)@.len() == old(list)@.len() + 1,
        final(list)@.contains(i),
        forall|j: usize| #[trigger] old(list)@.contains(j) ==> final(list)@.contains(j),
        forall|k: int|
            0 <= k < final(list)@.len() ==> (#[trigger] final(list)@[k]) == i
                || old(list)@.contains(final(list)@[k]),
        forall|k: int, l: int|
            0 <= k < l < final(list)@.len() ==> (#[trigger] final(list)@[k]) != (
            #[trigger] final(list)@[l]) && in_order(files@, final(list)@[k], final(list)@[l]),
{
    let ghost before = list@;
    let mut pos: usize = list.len();
    while pos > 0 && older_file(&files[list[pos - 1]], &files[i])
        invariant
            pos <= list@.len(),
            list@ == before,
            i < files@.len(),
            forall|k: int| 0 <= k < before.len() ==> (#[trigger] before[k]) < i,
            forall|k: int|
                pos <= k < before.len() ==> is_older(
                    files@[(#[trigger] before[k]) as int],
                    files@[i as int],
                ),
        decreases pos,
    {
        pos -= 1;
    }
    list.insert(pos, i);
    proof {
        let after = list@;
        assert(after[pos as int] == i);
        assert forall|j: usize| #[trigger] before.contains(j) implies after.contains(j) by {
            let k = choose|k: int| 0 <= k < before.len() && before[k] == j;
            assert(after[if k < pos { k } else { k + 1 }] == j);
        }
        assert forall|k: int| 0 <= k < after.len() implies (#[trigger] after[k]) == i
            || before.contains(after[k]) by {
            if k < pos {
                assert(before[k] == after[k]);
            } else if k > pos {
                assert(before[k - 1] == after[k]);
            }
        }
        assert forall|k: int, l: int| 0 <= k < l < after.len() implies (#[trigger] after[k]) != (
        #[trigger] after[l]) && in_order(files@, after[k], after[l]) by {
            if l < pos {
                assert(after[k] == before[k] && after[l] == before[l]);
            } else if k > pos {
                assert(after[k] == before[k - 1] && after[l] == before[l - 1]);
            } else if k == pos {
                let x = before[l - 1];
                assert(after[l] == x);
                lemma_older(files@[x as int], files@[i as int], files@[x as int]);
            } else if l == pos {
                let x = before[k];
                let y = before[pos - 1];
                assert(after[k] == x);
                assert(k < pos - 1 ==> in_order(files@, x, y));
                lemma_older(files@[x as int], files@[y as int], files@[i as int]);
            } else {
                assert(after[k] == before[k] && after[l] == before[l - 1]);
            }
        }
    }
}

/// A file name without the ending ".json", however often it stands there.
pub open spec fn without_json_ending(s: Seq<char>) -> Seq<char>
    decreases s.len(),
{
    if ends_in_json(s) {
        without_json_ending(s.take(s.len() - 5))
    } else {
        s
    }
}

/// The name under which a backup is shown.
pub fn backup_label(file_name: &str) -> (r: String)
    ensures
        r@ == without_json_ending(file_name@),
{
    let chars = char_vec(file_name);
    let ending = char_vec(".json");
    proof {
        reveal_strlit(".json");
        assert(ending@ =~= seq!['.', 'j', 's', 'o', 'n']);
    }
    let mut to: usize = chars.len();
    assert(chars@.take(to as int) =~= chars@);
    while to >= 5 && chars_at(&chars, &ending, to - 5)
        invariant
            to <= chars@.len(),
            ending@ == seq!['.', 'j', 's', 'o', 'n'],
            without_json_ending(chars@) == without_json_ending(chars@.take(to as int)),
        decreases to,
    {
        let ghost part = chars@.take(to as int);
        assert(part.subrange(to - 5, to as int) =~= chars@.subrange(to - 5, to as int));
        assert(part.take(to - 5) =~= chars@.take(to - 5));
        to -= 5;
    }
    proof {
        let part = chars@.take(to as int);
        if to >= 5 {
            assert(part.subrange(to - 5, to as int) =~= chars@.subrange(to - 5, to as int));
        }
        assert(part =~= chars@.subrange(0, to as int));
    }
    text_of_chars(&chars, 0, to)
}

/// Why a text cannot be a backup.
#[derive(Debug)]
pub enum BackupError {
    /// The text is not JSON.
    InvalidJson(serde_json::Error),
}

/// The text of a backup of a JSON text: the indented text of its value. Where
/// the value has only integers, the backup reads back as the same value.
pub open spec fn is_backup_text(text: Seq<char>, raw_json: Seq<char>) -> bool {
    &&& parsed_json(raw_json) matches Some(v)
    &&& text == pretty_text(v)
    &&& has_only_integers(v) ==> parsed_json(text) == Some(v)
}

/// The text of a backup: the thread's JSON, indented.
pub fn pretty_backup(raw_json: &str) -> (r: Result<String, BackupError>)
    ensures
        match r {
            Ok(s) => is_backup_text(s@, raw_json@),
            Err(_) => parsed_json(raw_json@) is None,
        },
{
    match parse_json(raw_json) {
        Ok(v) => Ok(pretty_json(&v)),
        Err(e) => Err(BackupError::InvalidJson(e)),
    }
}

/// Checks that the text of a backup is JSON.
pub fn validate_backup(json: &str) -> (r: Result<(), BackupError>)
    ensures
        r is Ok <==> parsed_json(json@) is Some,
{
    match parse_json(json) {
        Ok(_) => Ok(()),
        Err(e) => Err(BackupError::InvalidJson(e)),
    }
}

proof fn lemma_boundary_behind(a: Seq<char>, b: Seq<char>)
    ensures
        is_char_boundary(encode_utf8(a + b), byte_count(a) as int),
    decreases a.len(),
{
    let s = a + b;
    encode_utf8_valid_utf8(s);
    if a.len() == 0 {
        is_char_boundary_start_end_of_seq(encode_utf8(s));
    } else {
        lemma_boundary_behind(a.drop_first(), b);
        assert(s.drop_first() =~= a.drop_first() + b);
        encode_utf8_first_scalar(s);
        encode_utf8_valid_utf8(s.drop_first());
        assert(pop_first_scalar(encode_utf8(s)) =~= encode_utf8(s.drop_first()));
        assert(s[0] == a[0]);
        reveal_with_fuel(is_char_boundary, 2);
    }
}

/// The name of a backup leads back to its thread: for an id of 36 bytes with a
/// hyphen as its ninth character, as every UUID is, the id that is read from
/// the name is the thread's.
pub proof fn law_backup_names_lead_back(
    id: Seq<char>,
    title: Option<Seq<char>>,
    timestamp: Seq<char>,
)
    requires
        byte_count(id) == 36,
        id.len() > 8,
        id[8] == '-',
    ensures
        names_a_thread(backup_stem(id, title, timestamp)),
        is_char_boundary(encode_utf8(backup_stem(id, title, timestamp)), 36),
        leading_id(backup_stem(id, title, timestamp)) == id,
{
    let stem = backup_stem(id, title, timestamp);
    let rest = stem.skip(id.len() as int);
    assert(stem =~= id + rest);
    lemma_encode_concat(id, rest);
    lemma_boundary_behind(id, rest);
    lemma_boundary_is_prefix(stem, 36, 36);
    assert(encode_utf8(stem).subrange(0, 36) =~= encode_utf8(id));
    lemma_encode_injective(leading_id(stem), id);
}

/// A backup of a thread is found by the thread's id.
pub proof fn law_backups_are_found(id: Seq<char>, title: Option<Seq<char>>, timestamp: Seq<char>)
    ensures
        occurs(backup_name(id, title, timestamp), id),
{
    let name = backup_name(id, title, timestamp);
    assert(name.subrange(0, id.len() as int) =~= id);
    assert(occurs_at(name, id, 0));
}

proof fn lemma_trimmed(s: Seq<char>)
    ensures
        trimmed_start(s).len() <= s.len(),
        forall|i: int|
            0 <= i < trimmed_start(s).len() ==> s.contains(#[trigger] trimmed_start(s)[i]),
        trimmed_end(s).len() <= s.len(),
        forall|i: int| 0 <= i < trimmed_end(s).len() ==> (#[trigger] trimmed_end(s)[i]) == s[i],
    decreases s.len(),
{
    if s.len() > 0 {
        lemma_trimmed(s.drop_first());
        lemma_trimmed(s.drop_last());
        assert forall|i: int| 0 <= i < trimmed_start(s).len() implies s.contains(
            #[trigger] trimmed_start(s)[i],
        ) by {
            let c = trimmed_start(s)[i];
            if whitespace(s[0]) {
                assert(s.drop_first().contains(c));
                let k = choose|k: int| 0 <= k < s.drop_first().len() && s.drop_first()[k] == c;
                assert(s[k + 1] == c);
            } else {
                assert(s[i] == c);
            }
        }
    }
}

/// A title in a file name has at most 40 characters, and only letters, digits,
/// hyphens and underscores among them.
pub proof fn law_safe_titles_are_plain(title: Seq<char>, i: int)
    ensures
        safe_title(title).len() <= 40,
        0 <= i < safe_title(title).len() ==> {
            ||| alphanumeric(safe_title(title)[i])
            ||| safe_title(title)[i] == '-'
            ||| safe_title(title)[i] == '_'
        },
{
    let admissible = |c: char| is_title_char(c);
    let kept = title.filter(admissible);
    let first = first_chars(kept, 40);
    let started = trimmed_start(first);
    lemma_trimmed(first);
    lemma_trimmed(started);
    if 0 <= i < safe_title(title).len() {
        let c = trimmed_end(started)[i];
        assert(c == started[i]);
        assert(first.contains(started[i]));
        let k = choose|k: int| 0 <= k < first.len() && first[k] == c;
        assert(kept[k] == c);
        title.lemma_filter_pred(admissible, k);
    }
}

/// The time in the name of a backup is the one that it was made with.
pub proof fn law_backup_names_hold_their_time(
    id: Seq<char>,
    title: Option<Seq<char>>,
    timestamp: Seq<char>,
)
    requires
        is_timestamp(timestamp),
    ensures
        backup_time(backup_name(id, title, timestamp)) == timestamp,
{
    let stem = backup_stem(id, title, timestamp);
    let name = backup_name(id, title, timestamp);
    reveal_strlit(".json");
    assert(name.subrange(name.len() - 5, name.len() as int) =~= seq!['.', 'j', 's', 'o', 'n']);
    assert(json_stem(name) =~= stem);
    assert(stem.skip(stem.len() - 15) =~= timestamp);
}

/// Of two listed backups of a thread the newer comes first, whatever title the
/// thread had at either time.
pub proof fn law_newer_backups_come_first(
    list: Seq<usize>,
    files: Seq<BackupFile>,
    id: Seq<char>,
    k: int,
    l: int,
    older_title: Option<Seq<char>>,
    newer_title: Option<Seq<char>>,
    older: Seq<char>,
    newer: Seq<char>,
)
    requires
        lists_backups(list, files, id),
        0 <= k < list.len(),
        0 <= l < list.len(),
        is_timestamp(older),
        is_timestamp(newer),
        bytes_before(encode_utf8(older), encode_utf8(newer)),
        files[list[k] as int].name@ == backup_name(id, newer_title, newer),
        files[list[l] as int].name@ == backup_name(id, older_title, older),
    ensures
        k < l,
{
    law_backup_names_hold_their_time(id, newer_title, newer);
    law_backup_names_hold_their_time(id, older_title, older);
    lemma_order(encode_utf8(older), encode_utf8(newer), encode_utf8(older));
    if l < k {
        assert(in_order(files, list[l], list[k]));
    }
}

} // verus!
