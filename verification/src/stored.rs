//! What the JSON of a stored tokenizer describes.
//!
//! The `tokenizers` crate reads more than it can apply. The checks here tell, by
//! the JSON alone, which descriptions it reads and which parts it applies to every
//! text.

use vstd::prelude::*;
use vstd::utf8::encode_utf8;

use serde_json::Value;

use crate::bpe::is_character_map;
use crate::json::{count, field, flag, items, nothing, parse_value, text};
use crate::text::{chars_of, find_in, occurs, same_text, string_of};

verus! {

/// How deeply the values of a JSON text are nested at most.
pub const MAX_DEPTH: usize = 128;

/// The most characters of a regular expression.
pub const MAX_PATTERN: usize = 100_000;

/// The most digits of a regular expression.
pub const MAX_DIGITS: usize = 8;

/// The most tokens that a stored tokenizer is expected to fill a text up to.
pub const MAX_PADDING: usize = 1_000_000;

/// What a value has under a key, unless it is `null`.
pub open spec fn part_of(value: Value, key: Seq<char>) -> Option<Value> {
    match crate::json::field_of(value, key) {
        Some(found) => if crate::json::is_nothing(found) {
            None
        } else {
            Some(found)
        },
        None => None,
    }
}

/// Whether a value says that it is of a type.
pub open spec fn has_type(value: Value, name: Seq<char>) -> bool {
    match crate::json::field_of(value, "type"@) {
        Some(found) => crate::json::text_of(found) == Some(name),
        None => false,
    }
}

/// Whether the text of a character map says that its search tree is small: of the four
/// bytes that give its size, the last, which the fifth and the sixth character of the
/// base-64 text hold, is zero.
pub open spec fn map_is_small(value: Value) -> bool {
    match crate::json::field_of(value, "precompiled_charsmap"@) {
        Some(found) => match crate::json::text_of(found) {
            Some(text) => text.len() < 6 || (text[4] == 'A' && 'A' <= text[5] <= 'P'),
            None => true,
        },
        None => true,
    }
}

/// How many digits stand in a text.
pub open spec fn digits(text: Seq<char>) -> nat
    decreases text.len(),
{
    if text.len() == 0 {
        0
    } else {
        digits(text.drop_last()) + if '0' <= text.last() <= '9' {
            1nat
        } else {
            0nat
        }
    }
}

/// Whether the pattern of a part is small where it is a regular expression: the counts
/// in it have too few digits for what is multiplied out of them, and of the length, to
/// become large.
pub open spec fn pattern_is_small(value: Value) -> bool {
    match crate::json::field_of(value, "pattern"@) {
        Some(pattern) => match crate::json::field_of(pattern, "Regex"@) {
            Some(found) => match crate::json::text_of(found) {
                Some(text) => text.len() <= MAX_PATTERN && digits(text) <= MAX_DIGITS,
                None => true,
            },
            None => true,
        },
        None => true,
    }
}

/// The parts that a part lists under a key.
pub open spec fn listed_parts(value: Value, key: Seq<char>) -> Seq<Value> {
    match crate::json::field_of(value, key) {
        Some(list) => match crate::json::items_of(list) {
            Some(parts) => parts,
            None => Seq::empty(),
        },
        None => Seq::empty(),
    }
}

/// Whether the description of a normalizer, a pre-tokenizer or a decoder can be read,
/// or is refused with an error: it is no list, its pattern is small, what is said to
/// be a precompiled character map holds one, which is small, and so for all of the
/// parts that it lists.
pub open spec fn part_is_readable(value: Value, depth: nat) -> bool
    decreases depth, 0nat,
{
    &&& depth > 0
    &&& crate::json::items_of(value) is None
    &&& pattern_is_small(value)
    &&& has_type(value, "Precompiled"@) ==> map_is_small(value)
        && crate::bpe::holds_character_map(value)
    &&& match crate::json::field_of(value, "type"@) {
        Some(found) => crate::json::field_of(found, "Precompiled"@) is None,
        None => true,
    }
    &&& parts_are_readable(listed_parts(value, "normalizers"@), (depth - 1) as nat)
    &&& parts_are_readable(listed_parts(value, "pretokenizers"@), (depth - 1) as nat)
    &&& parts_are_readable(listed_parts(value, "decoders"@), (depth - 1) as nat)
}

/// Whether each of some descriptions can be read, or is refused with an error.
pub open spec fn parts_are_readable(parts: Seq<Value>, depth: nat) -> bool
    decreases depth, parts.len() + 1,
{
    forall|i: int| 0 <= i < parts.len() ==> part_is_readable(#[trigger] parts[i], depth)
}

/// Whether a part is left out, or can be read or is refused with an error.
pub open spec fn is_absent_or_readable(part: Option<Value>) -> bool {
    match part {
        Some(part) => part_is_readable(part, MAX_DEPTH as nat),
        None => true,
    }
}

/// Whether bytes of UTF-8 can be cut at an index.
pub open spec fn is_boundary(bytes: Seq<u8>, index: nat) -> bool {
    index == bytes.len() || (index < bytes.len() && !(0x80 <= bytes[index as int] < 0xc0))
}

/// The second token of a merge: of a list of two, or behind the space of a line. A
/// line that gives a version is no merge.
pub open spec fn second_token(merge: Value) -> Option<Seq<char>> {
    match crate::json::items_of(merge) {
        Some(parts) => if parts.len() == 2 {
            crate::json::text_of(parts[1])
        } else {
            None
        },
        None => match crate::json::text_of(merge) {
            Some(line) => if crate::text::starts_with(line, "#version"@) {
                None
            } else {
                match crate::text::find(line, " "@) {
                    Some(at) => Some(line.skip(at + 1)),
                    None => None,
                }
            },
            None => None,
        },
    }
}

/// Whether a prefix can be taken off a merge's second token.
pub open spec fn merge_is_readable(merge: Value, prefix: Seq<char>) -> bool {
    match second_token(merge) {
        Some(token) => is_boundary(encode_utf8(token), crate::text::byte_len(prefix)),
        None => true,
    }
}

/// Whether a prefix can be taken off the second token of each of some merges.
pub open spec fn all_merges_are_readable(merges: Seq<Value>, prefix: Seq<char>) -> bool {
    forall|i: int| 0 <= i < merges.len() ==> merge_is_readable(#[trigger] merges[i], prefix)
}

/// Whether the merges of a model can be read: where parts of words have a prefix,
/// it can be taken off the second token of each.
pub open spec fn merges_are_readable(model: Value) -> bool {
    match (part_of(model, "continuing_subword_prefix"@), part_of(model, "merges"@)) {
        (Some(prefix), Some(merges)) => match (
            crate::json::text_of(prefix),
            crate::json::items_of(merges),
        ) {
            (Some(prefix), Some(merges)) => all_merges_are_readable(merges, prefix),
            _ => true,
        },
        _ => true,
    }
}

/// Whether none of some added tokens is normalized.
pub open spec fn none_is_normalized(tokens: Seq<Value>) -> bool {
    forall|i: int| 0 <= i < tokens.len() ==> is_unset(#[trigger] tokens[i], "normalized"@)
}

/// Whether the added tokens can be read: their texts are normalized while they are
/// read, so none is to be normalized where the normalizer may fail on it.
pub open spec fn added_tokens_are_readable(value: Value) -> bool {
    ||| is_absent_or_one_of(part_of(value, "normalizer"@), known_normalizers())
    ||| match part_of(value, "added_tokens"@) {
        Some(list) => match crate::json::items_of(list) {
            Some(tokens) => none_is_normalized(tokens),
            None => true,
        },
        None => true,
    }
}

/// Whether the description of a tokenizer can be read, or is refused with an error.
pub open spec fn is_readable(value: Value) -> bool {
    &&& is_absent_or_readable(part_of(value, "normalizer"@))
    &&& is_absent_or_readable(part_of(value, "pre_tokenizer"@))
    &&& is_absent_or_readable(part_of(value, "decoder"@))
    &&& added_tokens_are_readable(value)
    &&& match part_of(value, "model"@) {
        Some(part) => merges_are_readable(part),
        None => true,
    }
}

/// Whether a part is left out, or of one of some types.
pub open spec fn is_absent_or_one_of(part: Option<Value>, names: Seq<Seq<char>>) -> bool {
    match part {
        Some(part) => exists|i: int| 0 <= i < names.len() && has_type(part, #[trigger] names[i]),
        None => true,
    }
}

/// The normalizers that are applied to every text.
pub open spec fn known_normalizers() -> Seq<Seq<char>> {
    seq!["NFC"@, "NFD"@, "NFKC"@, "NFKD"@, "Lowercase"@]
}

/// The pre-tokenizers that are applied to every text.
pub open spec fn known_pre_tokenizers() -> Seq<Seq<char>> {
    seq!["ByteLevel"@, "Whitespace"@, "WhitespaceSplit"@]
}

/// The models that are applied to every text.
pub open spec fn known_models() -> Seq<Seq<char>> {
    seq!["BPE"@, "WordPiece"@, "WordLevel"@]
}

/// Whether padding goes to a length that fits into memory.
pub open spec fn padding_is_known(part: Option<Value>) -> bool {
    match part {
        Some(padding) => {
            &&& part_of(padding, "pad_to_multiple_of"@) is None
            &&& match crate::json::field_of(padding, "strategy"@) {
                Some(strategy) => match crate::json::field_of(strategy, "Fixed"@) {
                    Some(length) => crate::json::count_of(length) matches Some(length) && length
                        <= MAX_PADDING,
                    None => crate::json::text_of(strategy) == Some("BatchLongest"@),
                },
                None => false,
            }
        },
        None => true,
    }
}

/// Whether a value has `false` under a key.
pub open spec fn is_unset(value: Value, key: Seq<char>) -> bool {
    match crate::json::field_of(value, key) {
        Some(found) => crate::json::flag_of(found) == Some(false),
        None => false,
    }
}

/// Whether an added token is matched as it stands.
pub open spec fn added_token_is_known(token: Value) -> bool {
    &&& is_unset(token, "lstrip"@)
    &&& is_unset(token, "rstrip"@)
    &&& is_unset(token, "normalized"@)
}

/// Whether each of some added tokens is matched as it stands.
pub open spec fn each_added_token_is_known(tokens: Seq<Value>) -> bool {
    forall|i: int| 0 <= i < tokens.len() ==> added_token_is_known(#[trigger] tokens[i])
}

/// Whether all added tokens are matched as they stand.
pub open spec fn added_tokens_are_known(part: Option<Value>) -> bool {
    match part {
        Some(list) => match crate::json::items_of(list) {
            Some(tokens) => each_added_token_is_known(tokens),
            None => false,
        },
        None => true,
    }
}

/// Whether the description of a tokenizer has no parts but those that are applied
/// to every text. Post-processors are not among them.
pub open spec fn has_known_parts(value: Value) -> bool {
    &&& part_of(value, "post_processor"@) is None
    &&& part_of(value, "model"@) is Some
    &&& is_absent_or_one_of(part_of(value, "model"@), known_models())
    &&& is_absent_or_one_of(part_of(value, "normalizer"@), known_normalizers())
    &&& is_absent_or_one_of(part_of(value, "pre_tokenizer"@), known_pre_tokenizers())
    &&& padding_is_known(part_of(value, "padding"@))
    &&& added_tokens_are_known(part_of(value, "added_tokens"@))
}

/// A text has the digits of its parts, and a character counts where it is one of the ten.
pub proof fn law_digits_are_counted_one_by_one(text: Seq<char>, more: Seq<char>, c: char)
    ensures
        digits(text + more) == digits(text) + digits(more),
        digits(seq![c]) == if 0x30 <= c as u32 <= 0x39 {
            1nat
        } else {
            0nat
        },
        digits(Seq::empty()) == 0,
    decreases more.len(),
{
    assert(seq![c].drop_last() =~= Seq::empty());
    assert(digits(seq![c].drop_last()) == 0);
    if more.len() == 0 {
        assert(text + more =~= text);
    } else {
        assert((text + more).drop_last() =~= text + more.drop_last());
        law_digits_are_counted_one_by_one(text, more.drop_last(), c);
    }
}

/// Bytes can be cut where a character begins, or at their end: not before a byte that
/// goes on with a character, whose two highest bits are one and zero.
pub proof fn law_bytes_are_cut_between_characters(bytes: Seq<u8>, index: nat)
    ensures
        index < bytes.len() ==> (is_boundary(bytes, index) <==> bytes[index as int] / 64 != 2),
        index >= bytes.len() ==> (is_boundary(bytes, index) <==> index == bytes.len()),
{
}

/// The second token of a merge is the second of two in a list, or what stands behind the
/// first space of a line that gives no version.
pub proof fn law_merges_have_a_second_token(merge: Value, first: Seq<char>, second: Seq<char>)
    ensures
        match crate::json::items_of(merge) {
            Some(parts) => parts.len() == 2 ==> second_token(merge) == crate::json::text_of(
                parts[1],
            ),
            None => crate::json::text_of(merge) == Some(first + seq![' '] + second)
                && !first.contains(' ') && !("#version"@.is_prefix_of(first + seq![' '] + second))
                ==> second_token(merge) == Some(second),
        },
{
    reveal_strlit(" ");
    reveal_strlit("#version");
    let line = first + seq![' '] + second;
    let at = first.len() as int;
    assert(" "@ =~= seq![' ']);
    crate::text::law_find_is_the_first_place(line, " "@);
    assert(line.subrange(at, at + 1) =~= " "@);
    if let Some(i) = crate::text::find(line, " "@) {
        if i < at && !first.contains(' ') {
            assert(line.subrange(i, i + 1)[0] == first[i]);
            assert(first.contains(first[i]));
        }
    }
    assert(line.skip(at + 1) =~= second);
    if crate::text::starts_with(line, "#version"@) {
        assert("#version"@ =~= line.subrange(0, "#version"@.len() as int));
    }
}

/// A description can be read where its parts need no care: without a normalizer, a
/// pre-tokenizer and a decoder, and with a model that has no prefix for parts of words.
pub proof fn law_plain_descriptions_can_be_read(value: Value)
    requires
        part_of(value, "normalizer"@) is None,
        part_of(value, "pre_tokenizer"@) is None,
        part_of(value, "decoder"@) is None,
        part_of(value, "model"@) matches Some(model) ==> part_of(
            model,
            "continuing_subword_prefix"@,
        ) is None,
    ensures
        is_readable(value),
{
}

/// A part that is described as an object, without a pattern, without parts of its own and
/// not as a character map, can be read.
pub proof fn law_simple_parts_can_be_read(value: Value, depth: nat)
    requires
        depth > 0,
        crate::json::items_of(value) is None,
        crate::json::field_of(value, "pattern"@) is None,
        crate::json::field_of(value, "normalizers"@) is None,
        crate::json::field_of(value, "pretokenizers"@) is None,
        crate::json::field_of(value, "decoders"@) is None,
        crate::json::field_of(value, "type"@) matches Some(kind) ==> crate::json::text_of(kind)
            != Some("Precompiled"@) && crate::json::field_of(kind, "Precompiled"@) is None,
    ensures
        part_is_readable(value, depth),
{
}

/// A part can be read exactly where it is no list, where a regular expression in it has
/// no more than 100,000 characters and eight digits, where what is said to be a character
/// map is a small one, and where all parts that it lists can be read.
pub proof fn law_parts_are_read_with_their_parts(value: Value, depth: nat)
    requires
        crate::json::field_of(value, "type"@) matches Some(kind) ==> crate::json::field_of(
            kind,
            "Precompiled"@,
        ) is None,
    ensures
        part_is_readable(value, depth + 1) <==> {
            &&& crate::json::items_of(value) is None
            &&& crate::json::field_of(value, "pattern"@) matches Some(pattern)
                ==> crate::json::field_of(pattern, "Regex"@) matches Some(regex)
                ==> crate::json::text_of(regex) matches Some(text)
                ==> text.len() <= 100_000 && digits(text) <= 8
            &&& crate::json::field_of(value, "type"@) matches Some(kind)
                ==> crate::json::text_of(kind) == Some("Precompiled"@)
                ==> crate::bpe::holds_character_map(value) && map_is_small(value)
            &&& forall|i: int|
                0 <= i < listed_parts(value, "normalizers"@).len() ==> part_is_readable(
                    #[trigger] listed_parts(value, "normalizers"@)[i],
                    depth,
                )
            &&& forall|i: int|
                0 <= i < listed_parts(value, "pretokenizers"@).len() ==> part_is_readable(
                    #[trigger] listed_parts(value, "pretokenizers"@)[i],
                    depth,
                )
            &&& forall|i: int|
                0 <= i < listed_parts(value, "decoders"@).len() ==> part_is_readable(
                    #[trigger] listed_parts(value, "decoders"@)[i],
                    depth,
                )
        },
{
}

/// The parts that a part lists are those of the array under the key, if there is one.
pub proof fn law_listed_parts_are_those_of_the_array(value: Value, key: Seq<char>)
    ensures
        match crate::json::field_of(value, key) {
            Some(list) => match crate::json::items_of(list) {
                Some(parts) => listed_parts(value, key) == parts,
                None => listed_parts(value, key).len() == 0,
            },
            None => listed_parts(value, key).len() == 0,
        },
{
}

/// A character map is small where the fifth and the sixth character of its text give the
/// highest byte of its size as zero, or where the text is too short to give a size.
pub proof fn law_small_maps_have_a_small_size(value: Value, found: Value, text: Seq<char>)
    requires
        crate::json::field_of(value, "precompiled_charsmap"@) == Some(found),
        crate::json::text_of(found) == Some(text),
    ensures
        map_is_small(value) <==> text.len() < 6 || (text[4] == 'A' && 'A' <= text[5] <= 'P'),
{
}

/// A model's merges can be read exactly where it has no prefix for parts of words, or
/// where the prefix can be taken off the second token of each merge.
pub proof fn law_merges_are_read_one_by_one(model: Value)
    ensures
        merges_are_readable(model) <==> (part_of(
            model,
            "continuing_subword_prefix"@,
        ) matches Some(found) ==> crate::json::text_of(found) matches Some(prefix) ==> part_of(
            model,
            "merges"@,
        ) matches Some(list) ==> crate::json::items_of(list) matches Some(merges)
            ==> forall|i: int|
            0 <= i < merges.len() ==> (second_token(#[trigger] merges[i]) matches Some(token)
                ==> is_boundary(encode_utf8(token), encode_utf8(prefix).len()))),
{
}

/// A description can be read exactly where its normalizer, pre-tokenizer and decoder can,
/// as far as it has them, where the merges of its model can, and where no added token is
/// normalized by a normalizer that may fail.
pub proof fn law_descriptions_are_read_part_by_part(value: Value)
    requires
        part_of(value, "added_tokens"@) is None,
    ensures
        is_readable(value) <==> {
            &&& part_of(value, "normalizer"@) matches Some(part) ==> part_is_readable(part, 128)
            &&& part_of(value, "pre_tokenizer"@) matches Some(part) ==> part_is_readable(part, 128)
            &&& part_of(value, "decoder"@) matches Some(part) ==> part_is_readable(part, 128)
            &&& part_of(value, "model"@) matches Some(part) ==> merges_are_readable(part)
        },
{
}

/// Added tokens that are not to be normalized are no hindrance, and neither are any where
/// the normalizer is left out.
pub proof fn law_added_tokens_may_stand_as_they_are(value: Value, tokens: Seq<Value>)
    requires
        part_of(value, "normalizer"@) is None || (part_of(value, "added_tokens"@) matches Some(list)
            && crate::json::items_of(list) == Some(tokens) && forall|i: int|
            0 <= i < tokens.len() ==> (crate::json::field_of(
                #[trigger] tokens[i],
                "normalized"@,
            ) matches Some(flag) && crate::json::flag_of(flag) == Some(false))),
    ensures
        added_tokens_are_readable(value),
{
}

/// Padding is known exactly where it is not rounded up, and goes to the longest text or
/// to a length of a million tokens at most.
pub proof fn law_known_padding_is_bounded(padding: Value)
    ensures
        padding_is_known(None),
        padding_is_known(Some(padding)) <==> {
            &&& part_of(padding, "pad_to_multiple_of"@) is None
            &&& crate::json::field_of(padding, "strategy"@) matches Some(strategy)
            &&& match crate::json::field_of(strategy, "Fixed"@) {
                Some(length) => crate::json::count_of(length) matches Some(tokens) && tokens
                    <= 1_000_000,
                None => crate::json::text_of(strategy) == Some("BatchLongest"@),
            }
        },
{
}

/// Added tokens are known exactly where each of them says that it takes in no whitespace
/// on either side and is not normalized.
pub proof fn law_known_tokens_stand_as_they_are(list: Value, tokens: Seq<Value>)
    requires
        crate::json::items_of(list) == Some(tokens),
    ensures
        added_tokens_are_known(None),
        added_tokens_are_known(Some(list)) <==> forall|i: int|
            0 <= i < tokens.len() ==> {
                &&& crate::json::field_of(#[trigger] tokens[i], "lstrip"@) matches Some(flag)
                    && crate::json::flag_of(flag) == Some(false)
                &&& crate::json::field_of(tokens[i], "rstrip"@) matches Some(flag)
                    && crate::json::flag_of(flag) == Some(false)
                &&& crate::json::field_of(tokens[i], "normalized"@) matches Some(flag)
                    && crate::json::flag_of(flag) == Some(false)
            },
{
    if added_tokens_are_known(Some(list)) {
        assert forall|i: int| 0 <= i < tokens.len() implies added_token_is_known(
            #[trigger] tokens[i],
        ) by {}
    }
}

/// What a value has under a key is there unless it is missing or `null`.
pub proof fn law_parts_are_there_unless_null(value: Value, key: Seq<char>)
    ensures
        match crate::json::field_of(value, key) {
            Some(found) => if crate::json::is_nothing(found) {
                part_of(value, key) is None
            } else {
                part_of(value, key) == Some(found)
            },
            None => part_of(value, key) is None,
        },
{
}

/// Whether a value says in words that it is of a type.
pub open spec fn is_said_to_be(value: Value, name: Seq<char>) -> bool {
    crate::json::field_of(value, "type"@) matches Some(found) && crate::json::text_of(found) == Some(
        name,
    )
}

/// A description has known parts exactly where its model, its normalizer and its
/// pre-tokenizer are of the known types, the latter two where they are there at all,
/// where it has no post-processor, and where its padding and its added tokens are plain.
pub proof fn law_known_parts_are_of_known_types(value: Value)
    ensures
        has_known_parts(value) <==> {
            &&& padding_is_known(part_of(value, "padding"@))
            &&& added_tokens_are_known(part_of(value, "added_tokens"@))
            &&& part_of(value, "post_processor"@) is None
            &&& match part_of(value, "model"@) {
                Some(part) => is_said_to_be(part, "BPE"@) || is_said_to_be(part, "WordPiece"@)
                    || is_said_to_be(part, "WordLevel"@),
                None => false,
            }
            &&& match part_of(value, "normalizer"@) {
                Some(part) => is_said_to_be(part, "NFC"@) || is_said_to_be(part, "NFD"@)
                    || is_said_to_be(part, "NFKC"@) || is_said_to_be(part, "NFKD"@)
                    || is_said_to_be(part, "Lowercase"@),
                None => true,
            }
            &&& match part_of(value, "pre_tokenizer"@) {
                Some(part) => is_said_to_be(part, "ByteLevel"@) || is_said_to_be(
                    part,
                    "Whitespace"@,
                ) || is_said_to_be(part, "WhitespaceSplit"@),
                None => true,
            }
        },
{
    let models = known_models();
    let normalizers = known_normalizers();
    let pre_tokenizers = known_pre_tokenizers();
    assert(models[0] == "BPE"@ && models[1] == "WordPiece"@ && models[2] == "WordLevel"@);
    assert(normalizers[0] == "NFC"@ && normalizers[1] == "NFD"@ && normalizers[2] == "NFKC"@
        && normalizers[3] == "NFKD"@ && normalizers[4] == "Lowercase"@);
    assert(pre_tokenizers[0] == "ByteLevel"@ && pre_tokenizers[1] == "Whitespace"@
        && pre_tokenizers[2] == "WhitespaceSplit"@);
}

/// What a value has under a key, unless it is `null`.
fn part<'a>(value: &'a Value, key: &str) -> (r: Option<&'a Value>)
    ensures
        match r {
            Some(found) => part_of(*value, key@) == Some(*found),
            None => part_of(*value, key@) is None,
        },
{
    match field(value, key) {
        Some(found) => if nothing(found) {
            None
        } else {
            Some(found)
        },
        None => None,
    }
}

/// Whether a value says that it is of a type.
fn is_of_type(value: &Value, name: &str) -> (r: bool)
    ensures
        r == has_type(*value, name@),
{
    match field(value, "type") {
        Some(found) => match text(found) {
            Some(found) => same_text(found, name),
            None => false,
        },
        None => false,
    }
}

/// Whether the text of a character map says that its search tree is small.
fn check_map_size(value: &Value) -> (r: bool)
    ensures
        r == map_is_small(*value),
{
    match field(value, "precompiled_charsmap") {
        Some(found) => match text(found) {
            Some(text) => {
                let chars = chars_of(text);
                chars.len() < 6 || (chars[4] == 'A' && 'A' <= chars[5] && chars[5] <= 'P')
            },
            None => true,
        },
        None => true,
    }
}

/// How many digits stand in a text.
fn count_digits(chars: &Vec<char>) -> (r: usize)
    ensures
        r == digits(chars@),
        r <= chars@.len(),
{
    let mut found: usize = 0;
    let mut i: usize = 0;
    assert(chars@.take(0) =~= Seq::empty());
    while i < chars.len()
        invariant
            i <= chars@.len(),
            found <= i,
            found == digits(chars@.take(i as int)),
        decreases chars@.len() - i,
    {
        assert(chars@.take(i + 1).drop_last() =~= chars@.take(i as int));
        if '0' <= chars[i] && chars[i] <= '9' {
            found += 1;
        }
        i += 1;
    }
    assert(chars@.take(i as int) =~= chars@);
    found
}

/// Whether the pattern of a part is small where it is a regular expression.
fn check_pattern(value: &Value) -> (r: bool)
    ensures
        r == pattern_is_small(*value),
{
    match field(value, "pattern") {
        Some(pattern) => match field(pattern, "Regex") {
            Some(found) => match text(found) {
                Some(text) => {
                    let chars = chars_of(text);
                    chars.len() <= MAX_PATTERN && count_digits(&chars) <= MAX_DIGITS
                },
                None => true,
            },
            None => true,
        },
        None => true,
    }
}

/// Whether each of the parts that a part lists under a key can be read, or is refused
/// with an error.
fn check_listed(value: &Value, key: &str, depth: usize) -> (r: bool)
    ensures
        r == parts_are_readable(listed_parts(*value, key@), depth as nat),
    decreases depth, 1nat,
{
    let list = match field(value, key) {
        Some(list) => list,
        None => return true,
    };
    let parts = match items(list) {
        Some(parts) => parts,
        None => return true,
    };
    let mut i: usize = 0;
    while i < parts.len()
        invariant
            i <= parts@.len(),
            parts@ == listed_parts(*value, key@),
            forall|k: int| 0 <= k < i ==> part_is_readable(#[trigger] parts@[k], depth as nat),
        decreases parts@.len() - i,
    {
        if !check_part(&parts[i], depth) {
            return false;
        }
        i += 1;
    }
    true
}

/// Whether the description of a normalizer, a pre-tokenizer or a decoder can be read,
/// or is refused with an error.
fn check_part(value: &Value, depth: usize) -> (r: bool)
    ensures
        r == part_is_readable(*value, depth as nat),
    decreases depth, 0nat,
{
    if depth == 0 || items(value).is_some() || !check_pattern(value) {
        return false;
    }
    if is_of_type(value, "Precompiled") && !(check_map_size(value) && is_character_map(value)) {
        return false;
    }
    if let Some(found) = field(value, "type") {
        if field(found, "Precompiled").is_some() {
            return false;
        }
    }
    check_listed(value, "normalizers", depth - 1) && check_listed(
        value,
        "pretokenizers",
        depth - 1,
    ) && check_listed(value, "decoders", depth - 1)
}

/// Whether the part under a key is left out, or can be read or is refused with an
/// error.
fn check_part_under(value: &Value, key: &str) -> (r: bool)
    ensures
        r == is_absent_or_readable(part_of(*value, key@)),
{
    match part(value, key) {
        Some(part) => check_part(part, MAX_DEPTH),
        None => true,
    }
}

/// Whether bytes can be cut at an index.
fn check_boundary(bytes: &[u8], index: usize) -> (r: bool)
    ensures
        r == is_boundary(bytes@, index as nat),
{
    index == bytes.len() || (index < bytes.len() && !(0x80 <= bytes[index] && bytes[index] < 0xc0))
}

/// Whether a prefix of a length can be taken off a merge's second token.
fn check_merge(merge: &Value, prefix: &str) -> (r: bool)
    ensures
        r == merge_is_readable(*merge, prefix@),
{
    let length = prefix.as_bytes().len();
    match items(merge) {
        Some(parts) => {
            if parts.len() != 2 {
                return true;
            }
            match text(&parts[1]) {
                Some(token) => check_boundary(token.as_bytes(), length),
                None => true,
            }
        },
        None => match text(merge) {
            Some(line) => {
                let chars = chars_of(line);
                let version = chars_of("#version");
                let space = chars_of(" ");
                let len = chars.len();
                proof {
                    reveal_strlit(" ");
                    assert(crate::text::part(chars@, (0, len)) =~= line@);
                }
                if occurs(&chars, &version, 0, len, 0) {
                    return true;
                }
                match find_in(&chars, &space, 0, len) {
                    Some(at) => {
                        let token = string_of(&chars, at + 1, len);
                        assert(token@ =~= line@.skip(at + 1));
                        check_boundary(token.as_str().as_bytes(), length)
                    },
                    None => true,
                }
            },
            None => true,
        },
    }
}

/// Whether the merges of a model can be read.
fn check_merges(model: &Value) -> (r: bool)
    ensures
        r == merges_are_readable(*model),
{
    let prefix = match part(model, "continuing_subword_prefix") {
        Some(prefix) => prefix,
        None => return true,
    };
    let list = match part(model, "merges") {
        Some(list) => list,
        None => return true,
    };
    let prefix = match text(prefix) {
        Some(prefix) => prefix,
        None => return true,
    };
    let merges = match items(list) {
        Some(merges) => merges,
        None => return true,
    };
    let mut i: usize = 0;
    while i < merges.len()
        invariant
            i <= merges@.len(),
            merges_are_readable(*model) == all_merges_are_readable(merges@, prefix@),
            forall|k: int| 0 <= k < i ==> merge_is_readable(#[trigger] merges@[k], prefix@),
        decreases merges@.len() - i,
    {
        if !check_merge(&merges[i], prefix) {
            return false;
        }
        i += 1;
    }
    true
}

/// Whether the normalizer of a tokenizer is left out, or one that is applied to every
/// text.
fn check_known_normalizer(value: &Value) -> (r: bool)
    ensures
        r == is_absent_or_one_of(part_of(*value, "normalizer"@), known_normalizers()),
{
    match part(value, "normalizer") {
        Some(part) => {
            let known = is_of_type(part, "NFC") || is_of_type(part, "NFD") || is_of_type(
                part,
                "NFKC",
            ) || is_of_type(part, "NFKD") || is_of_type(part, "Lowercase");
            proof {
                let names = known_normalizers();
                assert(names[0] == "NFC"@ && names[1] == "NFD"@ && names[2] == "NFKC"@ && names[3]
                    == "NFKD"@ && names[4] == "Lowercase"@);
            }
            known
        },
        None => true,
    }
}

/// Whether the added tokens can be read.
fn check_normalized_tokens(value: &Value) -> (r: bool)
    ensures
        r == added_tokens_are_readable(*value),
{
    if check_known_normalizer(value) {
        return true;
    }
    let list = match part(value, "added_tokens") {
        Some(list) => list,
        None => return true,
    };
    let tokens = match items(list) {
        Some(tokens) => tokens,
        None => return true,
    };
    let mut i: usize = 0;
    while i < tokens.len()
        invariant
            i <= tokens@.len(),
            added_tokens_are_readable(*value) == none_is_normalized(tokens@),
            forall|k: int| 0 <= k < i ==> is_unset(#[trigger] tokens@[k], "normalized"@),
        decreases tokens@.len() - i,
    {
        if !check_unset(&tokens[i], "normalized") {
            return false;
        }
        i += 1;
    }
    true
}

/// Whether the description of a tokenizer can be read, or is refused with an error.
pub fn can_be_read(value: &Value) -> (r: bool)
    ensures
        r == is_readable(*value),
{
    let model = match part(value, "model") {
        Some(part) => check_merges(part),
        None => true,
    };
    model && check_part_under(value, "normalizer") && check_part_under(value, "pre_tokenizer")
        && check_part_under(value, "decoder") && check_normalized_tokens(value)
}

/// Whether a value has `false` under a key.
fn check_unset(value: &Value, key: &str) -> (r: bool)
    ensures
        r == is_unset(*value, key@),
{
    match field(value, key) {
        Some(found) => match flag(found) {
            Some(found) => !found,
            None => false,
        },
        None => false,
    }
}

/// Whether all added tokens are matched as they stand.
fn check_added_tokens(value: &Value) -> (r: bool)
    ensures
        r == added_tokens_are_known(part_of(*value, "added_tokens"@)),
{
    let list = match part(value, "added_tokens") {
        Some(list) => list,
        None => return true,
    };
    let tokens = match items(list) {
        Some(tokens) => tokens,
        None => return false,
    };
    let mut i: usize = 0;
    while i < tokens.len()
        invariant
            i <= tokens@.len(),
            added_tokens_are_known(part_of(*value, "added_tokens"@)) == each_added_token_is_known(
                tokens@,
            ),
            forall|k: int| 0 <= k < i ==> added_token_is_known(#[trigger] tokens@[k]),
        decreases tokens@.len() - i,
    {
        let token = &tokens[i];
        if !(check_unset(token, "lstrip") && check_unset(token, "rstrip") && check_unset(
            token,
            "normalized",
        )) {
            assert(!added_token_is_known(tokens@[i as int]));
            return false;
        }
        i += 1;
    }
    true
}

/// Whether padding goes to a length that fits into memory.
fn check_padding(value: &Value) -> (r: bool)
    ensures
        r == padding_is_known(part_of(*value, "padding"@)),
{
    let padding = match part(value, "padding") {
        Some(padding) => padding,
        None => return true,
    };
    if part(padding, "pad_to_multiple_of").is_some() {
        return false;
    }
    let strategy = match field(padding, "strategy") {
        Some(strategy) => strategy,
        None => return false,
    };
    match field(strategy, "Fixed") {
        Some(length) => match count(length) {
            Some(length) => length <= MAX_PADDING as u64,
            None => false,
        },
        None => match text(strategy) {
            Some(name) => same_text(name, "BatchLongest"),
            None => false,
        },
    }
}

/// Whether the description of a tokenizer has no parts but those that are applied
/// to every text.
pub fn all_parts_are_known(value: &Value) -> (r: bool)
    ensures
        r == has_known_parts(*value),
{
    let model = match part(value, "model") {
        Some(part) => {
            let known = is_of_type(part, "BPE") || is_of_type(part, "WordPiece") || is_of_type(
                part,
                "WordLevel",
            );
            proof {
                let names = known_models();
                assert(names[0] == "BPE"@ && names[1] == "WordPiece"@ && names[2] == "WordLevel"@);
            }
            known
        },
        None => false,
    };
    let pre_tokenizer = match part(value, "pre_tokenizer") {
        Some(part) => {
            let known = is_of_type(part, "ByteLevel") || is_of_type(part, "Whitespace")
                || is_of_type(part, "WhitespaceSplit");
            proof {
                let names = known_pre_tokenizers();
                assert(names[0] == "ByteLevel"@ && names[1] == "Whitespace"@ && names[2]
                    == "WhitespaceSplit"@);
            }
            known
        },
        None => true,
    };
    part(value, "post_processor").is_none() && model && check_known_normalizer(value)
        && pre_tokenizer && check_padding(value) && check_added_tokens(value)
}

/// Whether a JSON text describes a tokenizer with no parts but those that are
/// applied to every text.
pub fn describes_known_parts(json: &str) -> (r: bool)
    ensures
        r == (crate::json::value_of(json@) matches Some(value) && has_known_parts(value)),
{
    match parse_value(json) {
        Ok(value) => all_parts_are_known(&value),
        Err(_) => false,
    }
}

} // verus!
