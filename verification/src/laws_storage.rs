//! How threads are stored, backed up and named.
use crate::backup::{
    backup_name, backup_stem, backup_time, bytes_before, ends_in_json, first_chars, is_backup_text,
    is_timestamp, is_title_char, leading_id, lists_backups, names_a_thread, safe_title,
    trimmed_end, trimmed_start, without_json_ending, BackupFile,
};
use crate::blob::{
    after_blanks, blob_text, blob_value, context_key, holds_bytes, is_blank, is_packed, is_unpacked,
    null_context_at, stands_at, type_of_blob, type_of_bytes, zstd_content, zstd_frame, BlobError,
};
use crate::chars::{alphanumeric, whitespace};
use crate::cli::{is_restore_check, is_restore_plan, RestoreError, RowUpdate};
use crate::json::{parsed_json, pretty_text};
use crate::laws::law_truncation_keeps_the_longest_prefix;
use crate::str_map::{has_key, inserted, key_index, keys_distinct, lookup};
use crate::text::{byte_count, fitting_chars};
use vstd::prelude::*;
use vstd::utf8::*;

verus! {

/// A blob of the type `json` holds the text that its bytes encode, one of the
/// type `zstd` the text that its content encodes, and one of any other type
/// holds nothing. The value of a blob is that of its text.
pub proof fn law_blobs_by_their_type(data: Seq<u8>, data_type: Seq<char>, s: Seq<char>)
    ensures
        blob_text(data, "json"@) == Some(s) <==> data == encode_utf8(s),
        blob_text(data, "zstd"@) == Some(s) <==> zstd_content(data) == Some(encode_utf8(s)),
        data_type != "json"@ && data_type != "zstd"@ ==> blob_text(data, data_type) is None
            && blob_value(data, data_type) is None && type_of_blob(data, data_type) == ""@,
        blob_text(data, data_type) == Some(s) ==> blob_value(data, data_type) == parsed_json(s),
        blob_text(data, data_type) is None ==> blob_value(data, data_type) is None,
        type_of_blob(data, "json"@) == type_of_bytes(data),
        zstd_content(data) is None ==> type_of_blob(data, "zstd"@) == ""@,
        zstd_content(data) matches Some(bytes) ==> type_of_blob(data, "zstd"@) == type_of_bytes(
            bytes,
        ),
{
    reveal_strlit("json");
    reveal_strlit("zstd");
    assert("json"@[0] != "zstd"@[0]);
    encode_utf8_valid_utf8(s);
    encode_utf8_decode_utf8(s);
    if valid_utf8(data) {
        decode_utf8_encode_utf8(data);
    }
    if let Some(bytes) = zstd_content(data) {
        if valid_utf8(bytes) {
            decode_utf8_encode_utf8(bytes);
        }
    }
}

/// Nothing but space, tab, line feed and carriage return.
pub open spec fn is_blank_space(s: Seq<u8>) -> bool {
    forall|i: int|
        0 <= i < s.len() ==> (#[trigger] s[i]) == 0x20 || s[i] == 0x09 || s[i] == 0x0a || s[i]
            == 0x0d
}

proof fn lemma_blanks(bytes: Seq<u8>, i: int)
    requires
        0 <= i <= bytes.len(),
    ensures
        i <= after_blanks(bytes, i) <= bytes.len(),
        is_blank_space(bytes.subrange(i, after_blanks(bytes, i))),
        after_blanks(bytes, i) < bytes.len() ==> !is_blank(bytes[after_blanks(bytes, i)]),
    decreases bytes.len() - i,
{
    let end = after_blanks(bytes, i);
    if i < bytes.len() && is_blank(bytes[i]) {
        lemma_blanks(bytes, i + 1);
        let rest = bytes.subrange(i + 1, end);
        let all = bytes.subrange(i, end);
        assert forall|j: int| 0 <= j < all.len() implies (#[trigger] all[j]) == 0x20 || all[j]
            == 0x09 || all[j] == 0x0a || all[j] == 0x0d by {
            if j > 0 {
                assert(all[j] == rest[j - 1]);
            }
        }
    }
}

/// Bytes stand in others exactly if those are made of something, the bytes and
/// something.
pub proof fn law_held_bytes_have_two_sides(bytes: Seq<u8>, needle: Seq<u8>)
    ensures
        holds_bytes(bytes, needle) <==> exists|a: Seq<u8>, b: Seq<u8>|
            bytes == #[trigger] (a + needle + b),
{
    if holds_bytes(bytes, needle) {
        let i = choose|i: int| stands_at(bytes, needle, i);
        assert(bytes =~= bytes.take(i) + needle + bytes.skip(i + needle.len()));
    }
    if exists|a: Seq<u8>, b: Seq<u8>| bytes == #[trigger] (a + needle + b) {
        let (a, b) = choose|a: Seq<u8>, b: Seq<u8>| bytes == #[trigger] (a + needle + b);
        assert(bytes.subrange(a.len() as int, (a.len() + needle.len()) as int) =~= needle);
        assert(stands_at(bytes, needle, a.len() as int));
    }
}

/// The bytes of the key of a subagent context stand in `bytes` between `a` and
/// `x`, which is blank like `y`; a colon, `y`, `null` and `b` follow.
pub open spec fn is_null_context(
    bytes: Seq<u8>,
    a: Seq<u8>,
    x: Seq<u8>,
    y: Seq<u8>,
    b: Seq<u8>,
) -> bool {
    &&& is_blank_space(x)
    &&& is_blank_space(y)
    &&& bytes == (a + encode_utf8("\"subagent_context\""@) + x).push(0x3a) + y + encode_utf8(
        "null"@,
    ) + b
}

proof fn lemma_null_bytes()
    ensures
        encode_utf8("null"@).len() == 4,
        !is_blank(encode_utf8("null"@)[0]),
{
    reveal_strlit("null");
    is_ascii_chars_encode_utf8("null"@);
    assert("null"@[0] == 'n');
    assert(encode_utf8("null"@)[0] == 'n' as u8);
}

proof fn lemma_null_context_splits(bytes: Seq<u8>, i: int)
    requires
        null_context_at(bytes, i),
    ensures
        exists|a: Seq<u8>, x: Seq<u8>, y: Seq<u8>, b: Seq<u8>| is_null_context(bytes, a, x, y, b),
{
    let key = context_key();
    let null = encode_utf8("null"@);
    let behind = i + key.len();
    lemma_blanks(bytes, behind);
    let colon = after_blanks(bytes, behind);
    lemma_blanks(bytes, colon + 1);
    let value = after_blanks(bytes, colon + 1);
    let a = bytes.take(i);
    let x = bytes.subrange(behind, colon);
    let y = bytes.subrange(colon + 1, value);
    let b = bytes.skip(value + null.len());
    assert(bytes.take(behind) =~= a + key);
    assert(bytes.take(colon) =~= a + key + x);
    assert(bytes.take(colon + 1) =~= (a + key + x).push(0x3a));
    assert(bytes.take(value) =~= (a + key + x).push(0x3a) + y);
    assert(bytes.take(value + null.len()) =~= (a + key + x).push(0x3a) + y + null) by {
        assert(bytes.subrange(value, value + null.len()) == null);
        assert(bytes.take(value + null.len()) =~= bytes.take(value) + bytes.subrange(
            value,
            value + null.len(),
        ));
    }
    assert(bytes =~= bytes.take(value + null.len()) + b);
    assert(is_null_context(bytes, a, x, y, b));
}

proof fn lemma_null_context_is_found(
    bytes: Seq<u8>,
    a: Seq<u8>,
    x: Seq<u8>,
    y: Seq<u8>,
    b: Seq<u8>,
)
    requires
        is_null_context(bytes, a, x, y, b),
    ensures
        type_of_bytes(bytes) == "Chat"@,
{
    let key = context_key();
    let null = encode_utf8("null"@);
    let i = a.len() as int;
    let behind = i + key.len();
    let colon = behind + x.len();
    let value = colon + 1 + y.len();
    lemma_null_bytes();
    assert(bytes.subrange(i, behind) =~= key);
    assert(bytes.subrange(value, value + null.len()) =~= null);
    assert(bytes[colon] == 0x3a);
    assert forall|j: int| behind <= j < colon implies is_blank(#[trigger] bytes[j]) by {
        assert(bytes[j] == x[j - behind]);
    }
    assert forall|j: int| colon < j < value implies is_blank(#[trigger] bytes[j]) by {
        assert(bytes[j] == y[j - colon - 1]);
    }
    crate::blob::law_a_null_context_is_a_chat(bytes, i, colon, value);
}

/// A thread is of the type `Subagent` exactly if the key of the subagent
/// context stands in its bytes and stands nowhere with a colon and `null`
/// behind it, blanks aside; otherwise it is a `Chat`.
pub proof fn law_types_by_the_context(bytes: Seq<u8>)
    ensures
        type_of_bytes(bytes) == if (exists|a: Seq<u8>, b: Seq<u8>|
            bytes == #[trigger] (a + encode_utf8("\"subagent_context\""@) + b)) && !(exists|
            a: Seq<u8>,
            x: Seq<u8>,
            y: Seq<u8>,
            b: Seq<u8>,
        | is_null_context(bytes, a, x, y, b)) {
            "Subagent"@
        } else {
            "Chat"@
        },
{
    law_held_bytes_have_two_sides(bytes, context_key());
    if exists|i: int| null_context_at(bytes, i) {
        let i = choose|i: int| null_context_at(bytes, i);
        lemma_null_context_splits(bytes, i);
    }
    if exists|a: Seq<u8>, x: Seq<u8>, y: Seq<u8>, b: Seq<u8>| is_null_context(bytes, a, x, y, b) {
        let (a, x, y, b) = choose|a: Seq<u8>, x: Seq<u8>, y: Seq<u8>, b: Seq<u8>|
            is_null_context(bytes, a, x, y, b);
        lemma_null_context_is_found(bytes, a, x, y, b);
    }
}

proof fn lemma_trims(s: Seq<char>)
    ensures
        ({
            let a = s.len() - trimmed_start(s).len();
            &&& 0 <= a
            &&& trimmed_start(s) == s.skip(a)
            &&& forall|i: int| 0 <= i < a ==> whitespace(#[trigger] s[i])
            &&& a < s.len() ==> !whitespace(s[a])
        }),
        ({
            let b = trimmed_end(s).len() as int;
            &&& b <= s.len()
            &&& trimmed_end(s) == s.take(b)
            &&& forall|i: int| b <= i < s.len() ==> whitespace(#[trigger] s[i])
            &&& b > 0 ==> !whitespace(s[b - 1])
        }),
    decreases s.len(),
{
    if s.len() > 0 {
        let tail = s.drop_first();
        let head = s.drop_last();
        lemma_trims(tail);
        lemma_trims(head);
        if whitespace(s[0]) {
            let a = s.len() - trimmed_start(s).len();
            assert(tail.skip(a - 1) =~= s.skip(a));
            assert forall|i: int| 0 <= i < a implies whitespace(#[trigger] s[i]) by {
                if i > 0 {
                    assert(tail[i - 1] == s[i]);
                }
            }
            if a < s.len() {
                assert(tail[a - 1] == s[a]);
            }
        } else {
            assert(s.skip(0) =~= s);
        }
        if whitespace(s.last()) {
            let b = trimmed_end(s).len() as int;
            assert(head.take(b) =~= s.take(b));
            assert forall|i: int| b <= i < s.len() implies whitespace(#[trigger] s[i]) by {
                if i < s.len() - 1 {
                    assert(head[i] == s[i]);
                }
            }
        } else {
            assert(s.take(s.len() as int) =~= s);
        }
    } else {
        assert(s.skip(0) =~= s);
        assert(s.take(0) =~= s);
    }
}

/// A title in a file name: of the letters, digits, hyphens, underscores and
/// spaces of the title the first 40, without the whitespace at both ends, each
/// space become an underscore and every other character the same.
pub proof fn law_titles_in_file_names(title: Seq<char>)
    ensures
        ({
            let all = title.filter(
                |c: char| alphanumeric(c) || c == '-' || c == '_' || c == ' ',
            );
            let shown = if all.len() > 40 {
                all.take(40)
            } else {
                all
            };
            let safe = safe_title(title);
            exists|from: int|
                {
                    &&& 0 <= from <= #[trigger] (from + safe.len()) <= shown.len()
                    &&& forall|i: int| 0 <= i < from ==> whitespace(#[trigger] shown[i])
                    &&& forall|i: int|
                        from + safe.len() <= i < shown.len() ==> whitespace(#[trigger] shown[i])
                    &&& safe.len() > 0 ==> !whitespace(shown[from]) && !whitespace(
                        shown[from + safe.len() - 1],
                    )
                    &&& forall|i: int|
                        0 <= i < safe.len() ==> (#[trigger] safe[i]) == (if shown[from + i]
                            == ' ' {
                            '_'
                        } else {
                            shown[from + i]
                        })
                }
        }),
{
    assert((|c: char| is_title_char(c)) =~= (
    |c: char| alphanumeric(c) || c == '-' || c == '_' || c == ' '));
    let shown = first_chars(title.filter(|c: char| is_title_char(c)), 40);
    let started = trimmed_start(shown);
    let safe = safe_title(title);
    lemma_trims(shown);
    lemma_trims(started);
    let from = shown.len() - started.len();
    let ended = trimmed_end(started);
    assert(safe.len() == ended.len());
    assert forall|i: int| from + safe.len() <= i < shown.len() implies whitespace(
        #[trigger] shown[i],
    ) by {
        assert(started[i - from] == shown[i]);
    }
    assert forall|i: int| 0 <= i < safe.len() implies (#[trigger] safe[i]) == (if shown[from + i]
        == ' ' {
        '_'
    } else {
        shown[from + i]
    }) by {
        assert(ended[i] == started[i]);
        assert(started[i] == shown[from + i]);
    }
    if safe.len() > 0 {
        assert(started[0] == shown[from]);
        assert(started[safe.len() - 1] == shown[from + safe.len() - 1]);
    }
    assert(0 <= from <= from + safe.len() <= shown.len());
}

/// The name of a backup: the id of the thread, its title or `untitled`, and the
/// time, with underscores between them and `.json` at the end.
pub proof fn law_names_of_backups(id: Seq<char>, title: Seq<char>, time: Seq<char>)
    ensures
        backup_stem(id, Some(title), time) == id + seq!['_'] + safe_title(title) + seq!['_'] + time,
        backup_name(id, Some(title), time) == id + seq!['_'] + safe_title(title) + seq!['_'] + time
            + seq!['.', 'j', 's', 'o', 'n'],
        backup_name(id, None, time) == backup_name(
            id,
            Some(seq!['u', 'n', 't', 'i', 't', 'l', 'e', 'd']),
            time,
        ),
        backup_stem(id, None, time) == backup_stem(
            id,
            Some(seq!['u', 'n', 't', 'i', 't', 'l', 'e', 'd']),
            time,
        ),
{
    reveal_strlit("_");
    reveal_strlit(".json");
    reveal_strlit("untitled");
    assert("_"@ =~= seq!['_']);
    assert(".json"@ =~= seq!['.', 'j', 's', 'o', 'n']);
    assert("untitled"@ =~= seq!['u', 'n', 't', 'i', 't', 'l', 'e', 'd']);
}

/// What is read from the stem of a file name: the longest prefix of at most 36
/// bytes, where the stem has as many and a hyphen as its ninth character.
pub proof fn law_ids_in_file_names(stem: Seq<char>)
    ensures
        names_a_thread(stem) <==> byte_count(stem) >= 36 && stem.len() >= 9 && stem.take(9).last()
            == '-',
        byte_count(stem) > 36 ==> exists|k: int|
            0 <= k < stem.len() && leading_id(stem) == #[trigger] stem.take(k) && byte_count(
                stem.take(k),
            ) <= 36 && byte_count(stem.take(k + 1)) > 36,
{
    if byte_count(stem) > 36 {
        law_truncation_keeps_the_longest_prefix(stem, 36);
        let k = fitting_chars(stem, 36) as int;
        assert(leading_id(stem) == stem.take(k));
    }
}

/// One text of bytes stands before another: behind a part that both have, it
/// ends or has the smaller byte.
pub proof fn law_the_first_difference_decides(a: Seq<u8>, b: Seq<u8>)
    ensures
        bytes_before(a, b) <==> exists|k: int|
            0 <= k <= a.len() && k < b.len() && #[trigger] a.take(k) == b.take(k) && (k == a.len()
                || a[k] < b[k]),
    decreases a.len(),
{
    if b.len() > 0 && a.len() > 0 && a[0] == b[0] {
        let x = a.drop_first();
        let y = b.drop_first();
        law_the_first_difference_decides(x, y);
        if bytes_before(a, b) {
            let k = choose|k: int|
                0 <= k <= x.len() && k < y.len() && #[trigger] x.take(k) == y.take(k) && (k
                    == x.len() || x[k] < y[k]);
            assert forall|i: int| 0 <= i < k + 1 implies a[i] == b[i] by {
                if i > 0 {
                    assert(x.take(k)[i - 1] == y.take(k)[i - 1]);
                }
            }
            assert(a.take(k + 1) =~= b.take(k + 1));
        }
        if exists|k: int|
            0 <= k <= a.len() && k < b.len() && #[trigger] a.take(k) == b.take(k) && (k == a.len()
                || a[k] < b[k]) {
            let k = choose|k: int|
                0 <= k <= a.len() && k < b.len() && #[trigger] a.take(k) == b.take(k) && (k
                    == a.len() || a[k] < b[k]);
            assert(k > 0);
            assert forall|i: int| 0 <= i < k - 1 implies x[i] == y[i] by {
                assert(a.take(k)[i + 1] == b.take(k)[i + 1]);
            }
            assert(x.take(k - 1) =~= y.take(k - 1));
        }
    } else if b.len() > 0 {
        assert(a.take(0) =~= b.take(0));
        if a.len() > 0 {
            assert forall|k: int| 0 < k <= a.len() && k < b.len() implies #[trigger] a.take(k)
                != b.take(k) by {
                assert(a.take(k)[0] != b.take(k)[0]);
            }
        }
    }
}

/// The time that stands in the name of a file: 15 characters before the ending
/// `.json`, digits with an underscore as the ninth. A name with no such part
/// there has no time.
pub proof fn law_times_in_file_names(before: Seq<char>, time: Seq<char>)
    requires
        time.len() == 15,
    ensures
        ({
            let name = before + time + seq!['.', 'j', 's', 'o', 'n'];
            if time[8] == '_' && (forall|i: int|
                0 <= i < 15 && i != 8 ==> '0' <= (#[trigger] time[i]) <= '9') {
                backup_time(name) == time
            } else {
                backup_time(name) == Seq::<char>::empty()
            }
        }),
{
    let name = before + time + seq!['.', 'j', 's', 'o', 'n'];
    assert(name.subrange(name.len() - 5, name.len() as int) =~= seq!['.', 'j', 's', 'o', 'n']);
    let stem = name.take(name.len() - 5);
    assert(stem =~= before + time);
    assert(stem.skip(stem.len() - 15) =~= time);
    if time[8] == '_' && (forall|i: int|
        0 <= i < 15 && i != 8 ==> '0' <= (#[trigger] time[i]) <= '9') {
        assert(is_timestamp(time));
    } else {
        if is_timestamp(time) {
            assert(time[8] == '_');
            assert forall|i: int| 0 <= i < 15 && i != 8 implies '0' <= (#[trigger] time[i])
                <= '9' by {}
        }
    }
}

/// The list of the backups of a thread has every JSON file with the id in its
/// name, each once, and no other file. A file with a later time comes first,
/// of two with one time the one with the later name, and of two with one name
/// the one that was found first.
pub proof fn law_the_list_of_backups(
    list: Seq<usize>,
    files: Seq<BackupFile>,
    id: Seq<char>,
    i: usize,
    k: int,
    l: int,
)
    requires
        lists_backups(list, files, id),
    ensures
        list.contains(i) <==> {
            &&& i < files.len()
            &&& files[i as int].extension matches Some(e)
            &&& e@ == "json"@
            &&& exists|a: Seq<char>, b: Seq<char>| files[i as int].name@ == #[trigger] (a + id + b)
        },
        0 <= k < l < list.len() ==> list[k] != list[l] && list[k] < files.len() && list[l]
            < files.len(),
        0 <= k < l < list.len() ==> ({
            let x = files[list[k] as int].name@;
            let y = files[list[l] as int].name@;
            &&& !bytes_before(encode_utf8(backup_time(x)), encode_utf8(backup_time(y)))
            &&& backup_time(x) == backup_time(y) ==> !bytes_before(encode_utf8(x), encode_utf8(y))
            &&& x == y ==> list[k] < list[l]
        }),
{
    crate::laws_text::law_what_occurs_has_two_sides(files[i as int].name@, id);
    if list.contains(i) {
        let p = choose|p: int| 0 <= p < list.len() && list[p] == i;
        assert(list[p] == i);
    }
}

/// The label of a backup: the ending `.json` goes as often as it stands there,
/// and nothing else does.
pub proof fn law_labels_of_backups(s: Seq<char>)
    ensures
        without_json_ending(s + ".json"@) == without_json_ending(s),
        !(exists|a: Seq<char>| s == #[trigger] (a + ".json"@))
            ==> without_json_ending(s) == s,
{
    reveal_strlit(".json");
    let json = ".json"@;
    assert(json =~= seq!['.', 'j', 's', 'o', 'n']);
    let long = s + json;
    assert(long.subrange(long.len() - 5, long.len() as int) =~= json);
    assert(long.take(long.len() - 5) =~= s);
    if ends_in_json(s) {
        assert(s =~= s.take(s.len() - 5) + json);
    }
}

/// A backup is the indented text of the value that was read, and reads back
/// where the value has only integers.
pub proof fn law_backups_hold_the_value(text: Seq<char>, raw_json: Seq<char>)
    requires
        is_backup_text(text, raw_json),
    ensures
        parsed_json(raw_json) is Some,
        text == pretty_text(parsed_json(raw_json)->0),
        crate::json::has_only_integers(parsed_json(raw_json)->0) ==> parsed_json(text)
            == parsed_json(raw_json),
{
}

/// The characters that count as whitespace, by their code points.
pub proof fn law_whitespace_by_code_point(c: char)
    ensures
        whitespace(c) <==> seq![
            0x9int, 0xa, 0xb, 0xc, 0xd, 0x20, 0x85, 0xa0, 0x1680, 0x2000, 0x2001, 0x2002, 0x2003,
            0x2004, 0x2005, 0x2006, 0x2007, 0x2008, 0x2009, 0x200a, 0x2028, 0x2029, 0x202f, 0x205f,
            0x3000,
        ].contains(c as int),
{
    let points = seq![
        0x9int, 0xa, 0xb, 0xc, 0xd, 0x20, 0x85, 0xa0, 0x1680, 0x2000, 0x2001, 0x2002, 0x2003,
        0x2004, 0x2005, 0x2006, 0x2007, 0x2008, 0x2009, 0x200a, 0x2028, 0x2029, 0x202f, 0x205f,
        0x3000,
    ];
    let n = c as int;
    if points.contains(n) {
        let i = choose|i: int| 0 <= i < points.len() && points[i] == n;
        assert(points[i] == n);
    }
    if whitespace(c) {
        let i: int = if 0x9 <= n <= 0xd {
            n - 0x9
        } else if n == 0x20 {
            5
        } else if n == 0x85 {
            6
        } else if n == 0xa0 {
            7
        } else if n == 0x1680 {
            8
        } else if 0x2000 <= n <= 0x200a {
            n - 0x2000 + 9
        } else if n == 0x2028 {
            20
        } else if n == 0x2029 {
            21
        } else if n == 0x202f {
            22
        } else if n == 0x205f {
            23
        } else {
            24
        };
        assert(points[i] == n);
    }
}

/// An entry under a key: it is found under that key and no other, the entries
/// under the other keys stay with their order, and no key stands twice.
pub proof fn law_entries_by_key<T>(
    s: Seq<(Seq<char>, T)>,
    key: Seq<char>,
    value: T,
    other: Seq<char>,
)
    requires
        keys_distinct(s),
    ensures
        ({
            let after = inserted(s, key, value);
            &&& lookup(after, key) == Some(value)
            &&& other != key ==> lookup(after, other) == lookup(s, other)
            &&& forall|i: int|
                0 <= i < s.len() ==> (#[trigger] after[i]).0 == s[i].0 && (s[i].0 != key
                    ==> after[i] == s[i])
            &&& after.len() == s.len() + (if exists|i: int|
                0 <= i < s.len() && (#[trigger] s[i]).0 == key {
                0int
            } else {
                1
            })
        }),
        forall|i: int| 0 <= i < s.len() ==> lookup(s, (#[trigger] s[i]).0) == Some(s[i].1),
        (forall|i: int| 0 <= i < s.len() ==> (#[trigger] s[i]).0 != other) ==> lookup(
            s,
            other,
        ) is None,
{
    let after = inserted(s, key, value);
    assert forall|i: int| 0 <= i < s.len() implies lookup(s, (#[trigger] s[i]).0) == Some(
        s[i].1,
    ) by {
        assert(has_key(s, s[i].0));
        let j = key_index(s, s[i].0);
        assert(s[j].0 == s[i].0);
        if j < i {
            assert(s[j].0 != s[i].0);
        } else if i < j {
            assert(s[i].0 != s[j].0);
        }
    }
    assert(keys_distinct(after));
    let at = if has_key(s, key) {
        key_index(s, key)
    } else {
        s.len() as int
    };
    assert(after[at] == (key, value));
    assert(has_key(after, key));
    let found = key_index(after, key);
    assert(after[found].0 == key);
    assert(found == at) by {
        if found < at {
            assert(after[found].0 != after[at].0);
        } else if at < found {
            assert(after[at].0 != after[found].0);
        }
    }
    if other != key {
        if has_key(s, other) {
            let i = key_index(s, other);
            assert(s[i].0 == other);
            assert(after[i] == s[i]);
            assert(has_key(after, other));
            let j = key_index(after, other);
            assert(after[j].0 == other);
            assert(i == j) by {
                if i < j {
                    assert(after[i].0 != after[j].0);
                } else if j < i {
                    assert(after[j].0 != after[i].0);
                }
            }
        } else {
            if has_key(after, other) {
                let j = key_index(after, other);
                assert(after[j].0 == other);
                assert(j != at);
                assert(s[j].0 == other);
            }
        }
    }
}

/// A time is found at the end of a name without the ending `.json` as well, and
/// what is found is a time or nothing.
pub proof fn law_times_without_an_ending(before: Seq<char>, time: Seq<char>)
    ensures
        is_timestamp(time) ==> backup_time(before + time) == time,
        backup_time(before).len() == 0 || is_timestamp(backup_time(before)),
        is_timestamp(time) <==> time.len() == 15 && time[8] == '_' && forall|i: int|
            0 <= i < 15 && i != 8 ==> '0' <= (#[trigger] time[i]) <= '9',
{
    let name = before + time;
    if is_timestamp(time) {
        assert(time[14] <= '9');
        assert(name[name.len() - 1] == time[14]);
        if ends_in_json(name) {
            assert(name.subrange(name.len() - 5, name.len() as int)[4] == 'n');
        }
        assert(name.skip(name.len() - 15) =~= time);
        assert(time[8] == '_');
        assert forall|i: int| 0 <= i < 15 && i != 8 implies '0' <= (#[trigger] time[i])
            <= '9' by {}
    }
}

/// What was packed unpacks to the same text, with no error. Data of an unknown
/// type is refused both ways, whatever it holds, and the type is named.
pub proof fn law_packed_threads_unpack(
    packed: Result<Vec<u8>, BlobError>,
    unpacked: Result<String, BlobError>,
    json: Seq<char>,
    data: Seq<u8>,
    data_type: Seq<char>,
)
    requires
        is_packed(packed, json, data_type),
        is_unpacked(unpacked, data, data_type),
    ensures
        packed is Ok && packed->Ok_0@ == data ==> unpacked is Ok && unpacked->Ok_0@ == json,
        data_type == "json"@ ==> packed is Ok && packed->Ok_0@ == encode_utf8(json),
        data_type == "zstd"@ ==> (packed is Ok <==> zstd_frame(encode_utf8(json), 3) is Some),
        data_type == "zstd"@ && packed is Ok ==> zstd_frame(encode_utf8(json), 3) == Some(
            packed->Ok_0@,
        ) && zstd_content(packed->Ok_0@) == Some(encode_utf8(json)),
        packed matches Ok(d) ==> data_type == "json"@ || data_type == "zstd"@,
        unpacked matches Ok(s) ==> (if data_type == "json"@ {
            data == encode_utf8(s@)
        } else {
            data_type == "zstd"@ && zstd_content(data) == Some(encode_utf8(s@))
        }),
        data_type == "json"@ ==> (unpacked is Ok <==> valid_utf8(data)),
        data_type == "zstd"@ ==> (unpacked is Ok <==> zstd_content(data) is Some && valid_utf8(
            zstd_content(data)->0,
        )),
        data_type != "json"@ && data_type != "zstd"@ ==> {
            &&& packed matches Err(BlobError::UnknownDataType(t)) && t@ == data_type
            &&& unpacked matches Err(BlobError::UnknownDataType(t)) && t@ == data_type
        },
{
    reveal_strlit("json");
    reveal_strlit("zstd");
    assert("json"@[0] != "zstd"@[0]);
    if let Ok(d) = packed {
        law_blobs_by_their_type(d@, data_type, json);
    }
    if let Ok(s) = unpacked {
        law_blobs_by_their_type(data, data_type, s@);
        encode_utf8_valid_utf8(s@);
    }
    law_blobs_by_their_type(data, data_type, json);
}

/// A restore is checked and planned in order: the text must be JSON, then the
/// name must begin with an id, then the database must have the thread, and then
/// the row holds just that text for just that thread.
pub proof fn law_restores_in_order(
    checked: Result<String, RestoreError>,
    planned: Result<RowUpdate, RestoreError>,
    stem: Seq<char>,
    json: Seq<char>,
    thread_id: Seq<char>,
    in_database: bool,
)
    requires
        is_restore_check(checked, stem, json),
        is_restore_plan(planned, thread_id, in_database, json),
    ensures
        checked is Ok <==> parsed_json(json) is Some && names_a_thread(stem),
        checked matches Ok(id) ==> id@ == leading_id(stem),
        parsed_json(json) is None <==> checked matches Err(RestoreError::InvalidJson(_)),
        parsed_json(json) is Some && !names_a_thread(stem) <==> checked matches Err(
            RestoreError::NoThreadId,
        ),
        !in_database <==> planned matches Err(RestoreError::NotInDatabase),
        in_database && zstd_frame(encode_utf8(json), 3) is None <==> planned matches Err(
            RestoreError::Compression(_),
        ),
        planned matches Ok(update) ==> {
            &&& in_database
            &&& update.thread_id@ == thread_id
            &&& update.data_type@ == "zstd"@
            &&& zstd_frame(encode_utf8(json), 3) == Some(update.data@)
            &&& zstd_content(update.data@) == Some(encode_utf8(json))
        },
{
    if let Ok(update) = planned {
        law_blobs_by_their_type(update.data@, update.data_type@, json);
    }
}

} // verus!
