//! File names received from the network, and the names files are stored under.
use vstd::prelude::*;
use crate::text::{
    is_control, is_control_exec, trim, trim_bounds, utf8_len, char_utf8_len, char_utf8_len_exec,
    push_char, collect_chars,
};

verus! {

/// Characters that may not appear in a stored name: separators and the
/// characters some file systems reserve.
pub open spec fn is_reserved(c: char) -> bool {
    c == '/' || c == '\\' || c == ':' || c == '*' || c == '?' || c == '"' || c == '<' || c == '>'
        || c == '|'
}

pub open spec fn replace_unsafe(c: char) -> char {
    if is_control(c) || is_reserved(c) {
        '_'
    } else {
        c
    }
}

/// `str::trim_start_matches('.')`.
pub open spec fn trim_leading_dots(s: Seq<char>) -> Seq<char>
    decreases s.len(),
{
    if s.len() > 0 && s[0] == '.' {
        trim_leading_dots(s.drop_first())
    } else {
        s
    }
}

/// The cleaned name: unsafe characters replaced by `_`, surrounding white
/// space removed, then leading dots removed.
pub open spec fn cleaned_name(name: Seq<char>) -> Seq<char> {
    trim_leading_dots(trim(name.map_values(|c: char| replace_unsafe(c))))
}

/// What `sanitize_name` accepts: a cleaned name that is not empty and fits in
/// 255 bytes.
pub open spec fn sanitized_name(name: Seq<char>) -> Option<Seq<char>> {
    let c = cleaned_name(name);
    if c.len() > 0 && utf8_len(c) <= 255 {
        Some(c)
    } else {
        None
    }
}

/// The name cannot be stored.
#[derive(Debug)]
pub struct InvalidName {
    pub name: String,
}

proof fn lemma_dots_step(s: Seq<char>, i: int, n: int)
    requires
        0 <= i < n <= s.len(),
        s[i] == '.',
    ensures
        trim_leading_dots(s.subrange(i, n)) == trim_leading_dots(s.subrange(i + 1, n)),
{
    assert(s.subrange(i, n).drop_first() =~= s.subrange(i + 1, n));
}

proof fn lemma_utf8_len_push(s: Seq<char>, c: char)
    ensures
        utf8_len(s.push(c)) == utf8_len(s) + char_utf8_len(c),
{
    assert(s.push(c).drop_last() =~= s);
}

/// Only a plain file name is accepted from the network: no separators, no
/// `..`, no control characters. Prevents path traversal on the receiver.
pub fn sanitize_name(name: &str) -> (r: Result<String, InvalidName>)
    ensures
        r matches Ok(s) ==> sanitized_name(name@) == Some(s@),
        r is Err <==> sanitized_name(name@) is None,
        r matches Err(e) ==> e.name@ == name@,
        // A name that needs no cleaning is kept as it is.
        needs_no_cleaning(name@) ==> (r matches Ok(s) && s@ == name@),
{
    let r = clean_name(name);
    proof {
        if needs_no_cleaning(name@) {
            law_clean_names_are_kept(name@);
        }
    }
    r
}

fn clean_name(name: &str) -> (r: Result<String, InvalidName>)
    ensures
        r matches Ok(s) ==> sanitized_name(name@) == Some(s@),
        r is Err <==> sanitized_name(name@) is None,
        r matches Err(e) ==> e.name@ == name@,
{
    let chars = collect_chars(name);
    let mut mapped: Vec<char> = Vec::new();
    let mut k: usize = 0;
    while k < chars.len()
        invariant
            chars@ == name@,
            k <= chars@.len(),
            mapped@ =~= chars@.take(k as int).map_values(|c: char| replace_unsafe(c)),
        decreases chars.len() - k,
    {
        let c = chars[k];
        let reserved = c == '/' || c == '\\' || c == ':' || c == '*' || c == '?' || c == '"' || c
            == '<' || c == '>' || c == '|';
        if is_control_exec(c) || reserved {
            mapped.push('_');
        } else {
            mapped.push(c);
        }
        proof {
            assert(chars@.take(k + 1) =~= chars@.take(k as int).push(c));
        }
        k = k + 1;
    }
    assert(chars@.take(chars@.len() as int) =~= chars@);
    let (start, end) = trim_bounds(&mapped);
    let ghost t = mapped@.subrange(start as int, end as int);
    let mut i: usize = start;
    assert(mapped@.subrange(start as int, end as int) =~= t);
    while i < end && mapped[i] == '.'
        invariant
            start <= i <= end <= mapped@.len(),
            t == mapped@.subrange(start as int, end as int),
            trim_leading_dots(t) == trim_leading_dots(mapped@.subrange(i as int, end as int)),
        decreases end - i,
    {
        proof {
            lemma_dots_step(mapped@, i as int, end as int);
        }
        i = i + 1;
    }
    let ghost clean = mapped@.subrange(i as int, end as int);
    assert(trim_leading_dots(clean) == clean);
    if i == end {
        return Err(InvalidName { name: name.to_owned() });
    }
    let mut out = String::new();
    let mut bytes: usize = 0;
    let mut j: usize = i;
    while j < end
        invariant
            i <= j <= end <= mapped@.len(),
            clean == mapped@.subrange(i as int, end as int),
            cleaned_name(name@) == clean,
            out@ == mapped@.subrange(i as int, j as int),
            bytes == utf8_len(out@),
            bytes <= 255,
        decreases end - j,
    {
        let c = mapped[j];
        let w = char_utf8_len_exec(c);
        proof {
            lemma_utf8_len_push(out@, c);
            assert(mapped@.subrange(i as int, j + 1) =~= mapped@.subrange(i as int, j as int).push(c));
        }
        if bytes + w > 255 {
            proof {
                lemma_utf8_len_prefix(clean, (j - i + 1) as int);
                assert(clean.take((j - i + 1) as int) =~= mapped@.subrange(i as int, j + 1));
            }
            return Err(InvalidName { name: name.to_owned() });
        }
        push_char(&mut out, c);
        bytes = bytes + w;
        j = j + 1;
    }
    Ok(out)
}

/// A prefix is never longer in UTF-8 than the whole.
proof fn lemma_utf8_len_prefix(s: Seq<char>, k: int)
    requires
        0 <= k <= s.len(),
    ensures
        utf8_len(s.take(k)) <= utf8_len(s),
    decreases s.len(),
{
    if k < s.len() {
        assert(s.drop_last().take(k) =~= s.take(k));
        lemma_utf8_len_prefix(s.drop_last(), k);
    } else {
        assert(s.take(k) =~= s);
    }
}

} // verus!

verus! {

/// No character is a separator, a reserved character or a control character.
pub open spec fn all_plain(s: Seq<char>) -> bool {
    forall|i: int| 0 <= i < s.len() ==> !is_reserved(#[trigger] s[i]) && !is_control(s[i])
}

proof fn lemma_plain_trim_start(s: Seq<char>)
    requires
        all_plain(s),
    ensures
        all_plain(crate::text::trim_start(s)),
    decreases s.len(),
{
    if s.len() > 0 && crate::text::is_whitespace(s[0]) {
        assert(all_plain(s.drop_first())) by {
            assert forall|i: int| 0 <= i < s.len() - 1 implies !is_reserved(#[trigger] s.drop_first()[i])
                && !is_control(s.drop_first()[i]) by {
                assert(s.drop_first()[i] == s[i + 1]);
            }
        }
        lemma_plain_trim_start(s.drop_first());
    }
}

proof fn lemma_plain_trim_end(s: Seq<char>)
    requires
        all_plain(s),
    ensures
        all_plain(crate::text::trim_end(s)),
    decreases s.len(),
{
    if s.len() > 0 && crate::text::is_whitespace(s.last()) {
        assert(all_plain(s.drop_last()));
        lemma_plain_trim_end(s.drop_last());
    }
}

proof fn lemma_plain_dots(s: Seq<char>)
    requires
        all_plain(s),
    ensures
        all_plain(trim_leading_dots(s)),
        trim_leading_dots(s).len() > 0 ==> trim_leading_dots(s)[0] != '.',
    decreases s.len(),
{
    if s.len() > 0 && s[0] == '.' {
        assert(all_plain(s.drop_first())) by {
            assert forall|i: int| 0 <= i < s.len() - 1 implies !is_reserved(#[trigger] s.drop_first()[i])
                && !is_control(s.drop_first()[i]) by {
                assert(s.drop_first()[i] == s[i + 1]);
            }
        }
        lemma_plain_dots(s.drop_first());
    }
}

/// A name that needs no cleaning: no control character and none of
/// `/ \ : * ? " < > |`, no white space at either end, no leading dot, not
/// empty and at most 255 bytes.
pub open spec fn needs_no_cleaning(name: Seq<char>) -> bool {
    &&& 0 < name.len()
    &&& utf8_len(name) <= 255
    &&& forall|i: int| 0 <= i < name.len() ==> !is_control(#[trigger] name[i]) && name[i] != '/' && name[i] != '\\'
        && name[i] != ':' && name[i] != '*' && name[i] != '?' && name[i] != '"' && name[i] != '<' && name[i] != '>'
        && name[i] != '|'
    &&& !crate::text::is_whitespace(name[0])
    &&& !crate::text::is_whitespace(name.last())
    &&& name[0] != '.'
}

/// Only control characters and `/ \ : * ? " < > |` are replaced: a name that
/// needs no cleaning is stored as it is.
pub proof fn law_clean_names_are_kept(name: Seq<char>)
    requires
        needs_no_cleaning(name),
    ensures
        sanitized_name(name) == Some(name),
{
    let m = name.map_values(|c: char| replace_unsafe(c));
    assert(m =~= name) by {
        assert forall|i: int| 0 <= i < name.len() implies m[i] == name[i] by {
            assert(!is_control(name[i]));
            assert(!is_reserved(name[i]));
        }
    }
    assert(crate::text::trim_start(name) == name);
    assert(crate::text::trim_end(name) == name);
    assert(trim(name) == name);
    assert(trim_leading_dots(name) == name);
}

/// A name that `sanitize_name` accepts is a plain file name: not empty, at
/// most 255 bytes, with no path separator, reserved or control character, and
/// not starting with a dot, so it can neither leave the destination folder nor
/// be hidden.
pub proof fn law_sanitized_name_is_plain(name: Seq<char>)
    requires
        sanitized_name(name) is Some,
    ensures
        ({
            let c = sanitized_name(name).unwrap();
            &&& c.len() > 0
            &&& utf8_len(c) <= 255
            &&& all_plain(c)
            &&& c[0] != '.'
        }),
{
    let m = name.map_values(|c: char| replace_unsafe(c));
    assert(all_plain(m)) by {
        assert forall|i: int| 0 <= i < m.len() implies !is_reserved(#[trigger] m[i]) && !is_control(m[i]) by {
            assert(m[i] == replace_unsafe(name[i]));
        }
    }
    lemma_plain_trim_start(m);
    lemma_plain_trim_end(crate::text::trim_start(m));
    lemma_plain_dots(trim(m));
}

} // verus!

verus! {

/// The last eight characters of the text, last one first (`chars().rev().take(8)`).
pub open spec fn reversed_tail8(t: Seq<char>) -> Seq<char> {
    let k = if t.len() < 8 { t.len() } else { 8 };
    Seq::new(k, |i: int| t[t.len() - 1 - i])
}

/// `.<name>.<size>.<tag>.lso-part`: where a file being received is kept
/// until its hash is verified. The tag ties it to the sending device, so a
/// later attempt from the same device resumes it.
pub open spec fn part_name(name: Seq<char>, size: u64, tag: Seq<char>) -> Seq<char> {
    seq!['.'] + name + seq!['.'] + crate::text::decimal(size as nat) + seq!['.'] + tag + seq![
        '.',
        'l',
        's',
        'o',
        '-',
        'p',
        'a',
        'r',
        't',
    ]
}

/// The tag of a sending device in part file names.
pub fn peer_tag(peer: &crate::addr::PeerId) -> (r: String)
    ensures
        r@ == reversed_tail8(crate::addr::base58_of(peer@)),
{
    let text = peer.to_base58();
    let t = collect_chars(text.as_str());
    let n = t.len();
    let k: usize = if n < 8 { n } else { 8 };
    let mut r = String::new();
    let mut i: usize = 0;
    while i < k
        invariant
            n == t@.len(),
            t@ == text@,
            k == if n < 8 { n } else { 8 },
            i <= k,
            r@ == reversed_tail8(t@).take(i as int),
        decreases k - i,
    {
        push_char(&mut r, t[n - 1 - i]);
        proof {
            assert(reversed_tail8(t@).take(i + 1) =~= reversed_tail8(t@).take(i as int).push(t@[n - 1 - i]));
        }
        i = i + 1;
    }
    assert(reversed_tail8(t@).take(k as int) =~= reversed_tail8(t@));
    r
}

/// The name under which a file of the offer is kept while it arrives.
pub fn part_file_name(name: &str, size: u64, peer: &crate::addr::PeerId) -> (r: Result<String, InvalidName>)
    ensures
        r is Err <==> sanitized_name(name@) is None,
        r matches Err(e) ==> e.name@ == name@,
        r matches Ok(p) ==> p@ == part_name(sanitized_name(name@).unwrap(), size, reversed_tail8(
            crate::addr::base58_of(peer@),
        )),
{
    let clean = match sanitize_name(name) {
        Ok(c) => c,
        Err(e) => {
            return Err(e);
        },
    };
    let tag = peer_tag(peer);
    let mut r = String::new();
    push_char(&mut r, '.');
    crate::text::append(&mut r, clean.as_str());
    push_char(&mut r, '.');
    let digits = crate::text::decimal_string(size);
    crate::text::append(&mut r, digits.as_str());
    push_char(&mut r, '.');
    crate::text::append(&mut r, tag.as_str());
    let suffix = ".lso-part";
    proof {
        reveal_strlit(".lso-part");
    }
    crate::text::append(&mut r, suffix);
    assert(r@ =~= part_name(clean@, size, tag@));
    Ok(r)
}

/// Position of the last `.` in `s`, if any.
pub open spec fn last_dot(s: Seq<char>) -> Option<int> {
    if exists|k: int| 0 <= k < s.len() && s[k] == '.' {
        Some(choose|k: int| 0 <= k < s.len() && s[k] == '.' && forall|j: int| k < j < s.len() ==> s[j] != '.')
    } else {
        None
    }
}

/// The `i`-th name tried when storing a file called `name`: the name itself,
/// then `stem (i).ext`, the extension being what follows the last dot when
/// something precedes that dot.
pub open spec fn candidate_name(name: Seq<char>, i: nat) -> Seq<char> {
    if i == 0 {
        name
    } else {
        match last_dot(name) {
            Some(k) if k > 0 => name.take(k) + seq![' ', '('] + crate::text::decimal(i) + seq![')'] + name.skip(k),
            _ => name + seq![' ', '('] + crate::text::decimal(i) + seq![')'],
        }
    }
}

pub fn unique_candidate(name: &str, i: u64) -> (r: String)
    ensures
        r@ == candidate_name(name@, i as nat),
{
    let chars = collect_chars(name);
    if i == 0 {
        let mut r = String::new();
        crate::text::append(&mut r, name);
        return r;
    }
    let mut k: usize = chars.len();
    let mut found = false;
    while k > 0 && !found
        invariant
            k <= chars@.len(),
            chars@ == name@,
            found ==> k < chars@.len() && chars@[k as int] == '.',
            forall|j: int| (if found { k + 1 } else { k as int }) <= j < chars@.len() ==> chars@[j] != '.',
        decreases k + (if found { 0int } else { 1int }),
    {
        if chars[k - 1] == '.' {
            found = true;
        }
        k = k - 1;
        if !found {
            assert(chars@[k as int] != '.');
        }
    }
    let ghost ld = last_dot(name@);
    proof {
        if found {
            assert(exists|k2: int| 0 <= k2 < name@.len() && name@[k2] == '.');
            let c = choose|k2: int| 0 <= k2 < name@.len() && name@[k2] == '.' && forall|j: int|
                k2 < j < name@.len() ==> name@[j] != '.';
            assert(forall|j: int| k < j < name@.len() ==> name@[j] != '.');
            if c < k {
                assert(name@[k as int] != '.');
            }
            if c > k {
                assert(name@[c] != '.');
            }
            assert(ld == Some(k as int));
        } else {
            assert(ld is None);
        }
    }
    let mut r = String::new();
    let mut j: usize = 0;
    let stem_end = if found && k > 0 { k } else { chars.len() };
    while j < stem_end
        invariant
            stem_end <= chars@.len(),
            j <= stem_end,
            r@ == chars@.take(j as int),
        decreases stem_end - j,
    {
        push_char(&mut r, chars[j]);
        proof {
            assert(chars@.take(j + 1) =~= chars@.take(j as int).push(chars@[j as int]));
        }
        j = j + 1;
    }
    push_char(&mut r, ' ');
    push_char(&mut r, '(');
    let digits = crate::text::decimal_string(i);
    crate::text::append(&mut r, digits.as_str());
    push_char(&mut r, ')');
    let ghost before = r@;
    while j < chars.len()
        invariant
            stem_end <= j <= chars@.len(),
            r@ == before + chars@.subrange(stem_end as int, j as int),
        decreases chars.len() - j,
    {
        push_char(&mut r, chars[j]);
        proof {
            assert(chars@.subrange(stem_end as int, j + 1) =~= chars@.subrange(stem_end as int, j as int).push(chars@[j as int]));
        }
        j = j + 1;
    }
    proof {
        assert(chars@.subrange(stem_end as int, chars@.len() as int) =~= chars@.skip(stem_end as int));
        assert(chars@.skip(chars@.len() as int) =~= Seq::<char>::empty());
        assert(chars@.take(chars@.len() as int) =~= chars@);
        if found && k > 0 {
            assert(r@ =~= candidate_name(name@, i as nat));
        } else {
            assert(r@ =~= candidate_name(name@, i as nat));
        }
    }
    r
}

} // verus!
