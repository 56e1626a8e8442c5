use vstd::prelude::*;

verus! {

// ---------------------------------------------------------------------------
// Text model
// ---------------------------------------------------------------------------

/// The characters that carry the Unicode `White_Space` property.
pub open spec fn is_whitespace_char(c: char) -> bool {
    let u = c as u32;
    ||| 0x09 <= u <= 0x0D
    ||| u == 0x20
    ||| u == 0x85
    ||| u == 0xA0
    ||| u == 0x1680
    ||| 0x2000 <= u <= 0x200A
    ||| u == 0x2028
    ||| u == 0x2029
    ||| u == 0x202F
    ||| u == 0x205F
    ||| u == 0x3000
}

/// The text without its leading whitespace.
pub open spec fn trim_start(s: Seq<char>) -> Seq<char>
    decreases s.len(),
{
    if s.len() > 0 && is_whitespace_char(s[0]) {
        trim_start(s.drop_first())
    } else {
        s
    }
}

/// The text without its trailing whitespace.
pub open spec fn trim_end(s: Seq<char>) -> Seq<char>
    decreases s.len(),
{
    if s.len() > 0 && is_whitespace_char(s.last()) {
        trim_end(s.drop_last())
    } else {
        s
    }
}

/// The text without leading and trailing whitespace.
pub open spec fn trim(s: Seq<char>) -> Seq<char> {
    trim_end(trim_start(s))
}

/// `pat` occurs in `text` starting at `i`.
pub open spec fn occurs_at(text: Seq<char>, pat: Seq<char>, i: int) -> bool {
    0 <= i && i + pat.len() <= text.len() && text.subrange(i, i + pat.len()) == pat
}

/// `i` is the first place where `pat` occurs in `text`.
pub open spec fn is_first_occurrence(text: Seq<char>, pat: Seq<char>, i: int) -> bool {
    occurs_at(text, pat, i) && forall|j: int| 0 <= j < i ==> !occurs_at(text, pat, j)
}

/// Where `pat` first occurs in `text`, if anywhere.
pub open spec fn first_occurrence(text: Seq<char>, pat: Seq<char>) -> Option<int> {
    if exists|i: int| is_first_occurrence(text, pat, i) {
        Some(choose|i: int| is_first_occurrence(text, pat, i))
    } else {
        None
    }
}

/// A character stored in one byte.
pub open spec fn is_ascii_char(c: char) -> bool {
    (c as u32) < 128
}

// ---------------------------------------------------------------------------
// Component entries
// ---------------------------------------------------------------------------

/// The keys of the RON map that `text` holds (a map from strings to RON
/// values), or `None` when `text` is not such a map.
pub uninterp spec fn ron_map_keys(text: Seq<char>) -> Option<Set<Seq<char>>>;

/// The key of a component entry as it is written in a serialized map:
/// `"name":`.
pub open spec fn component_pattern(name: Seq<char>) -> Seq<char> {
    seq!['"'] + name + seq!['"', ':']
}

/// The byte-indexed slice taken from the serialized text would not fall on
/// character boundaries inside the text: the entry's key is the last thing
/// in the text, or the text ends with a character of several bytes.
pub open spec fn extraction_panics(name: Seq<char>, data: Seq<char>, keys: Option<Set<Seq<char>>>) -> bool {
    match keys {
        Some(ks) => ks.contains(name) && match first_occurrence(data, component_pattern(name)) {
            Some(s) => !(s + component_pattern(name).len() <= data.len() - 1 && is_ascii_char(data.last())),
            None => false,
        },
        None => false,
    }
}

/// The RON text of component `name` inside the serialized map `data`: the
/// text after the first `"name":` up to (not including) the map's closing
/// character, trimmed. `None` when `data` is not a RON map, has no entry
/// for `name`, or does not spell the key that way.
pub open spec fn extracted_component(name: Seq<char>, data: Seq<char>, keys: Option<Set<Seq<char>>>) -> Option<Seq<char>> {
    match keys {
        Some(ks) => if !ks.contains(name) {
            None
        } else {
            match first_occurrence(data, component_pattern(name)) {
                Some(s) => Some(trim(data.subrange(s + component_pattern(name).len(), data.len() - 1))),
                None => None,
            }
        },
        None => None,
    }
}

// ---------------------------------------------------------------------------
// Trusted calls
// ---------------------------------------------------------------------------

/// Calls `ron::from_str` to read `text` as a map from strings to RON values
/// and hands back its keys (in no particular order). Claims only that the
/// keys are those of the named parse result.
#[verifier::external_body]
fn parse_ron_map_keys(text: &str) -> (r: Option<Vec<String>>)
    ensures
        match r {
            Some(v) => ron_map_keys(text@) == Some(v@.map_values(|k: String| k@).to_set()),
            None => ron_map_keys(text@) is None,
        },
{
    match ron::from_str::<std::collections::HashMap<String, ron::Value>>(text) {
        Ok(map) => Some(map.into_keys().collect()),
        Err(_) => None,
    }
}

// ---------------------------------------------------------------------------
// Executable operations
// ---------------------------------------------------------------------------

/// The characters of `s`, in order.
fn chars_of(s: &str) -> (r: Vec<char>)
    ensures
        r@ == s@,
{
    let n = s.unicode_len();
    let mut out: Vec<char> = Vec::new();
    let mut i: usize = 0;
    while i < n
        invariant
            n == s@.len(),
            i <= n,
            out@ == s@.subrange(0, i as int),
        decreases n - i,
    {
        let c = s.get_char(i);
        out.push(c);
        assert(s@.subrange(0, i + 1) =~= s@.subrange(0, i as int).push(c));
        i = i + 1;
    }
    assert(s@.subrange(0, n as int) =~= s@);
    out
}

/// Whether `c` has the Unicode `White_Space` property.
pub fn is_whitespace(c: char) -> (r: bool)
    ensures
        r == is_whitespace_char(c),
{
    let u = c as u32;
    (0x09 <= u && u <= 0x0D) || u == 0x20 || u == 0x85 || u == 0xA0 || u == 0x1680 || (0x2000 <= u && u
        <= 0x200A) || u == 0x2028 || u == 0x2029 || u == 0x202F || u == 0x205F || u == 0x3000
}

/// The bounds of `chars[from..to]` with leading and trailing whitespace
/// left out.
fn trimmed_bounds(chars: &Vec<char>, from: usize, to: usize) -> (r: (usize, usize))
    requires
        from <= to <= chars@.len(),
    ensures
        from <= r.0 <= r.1 <= to,
        chars@.subrange(r.0 as int, r.1 as int) == trim(chars@.subrange(from as int, to as int)),
{
    let ghost s = chars@.subrange(from as int, to as int);
    let mut i = from;
    while i < to && is_whitespace(chars[i])
        invariant
            from <= i <= to <= chars@.len(),
            s == chars@.subrange(from as int, to as int),
            trim_start(s) == trim_start(chars@.subrange(i as int, to as int)),
        decreases to - i,
    {
        let ghost t = chars@.subrange(i as int, to as int);
        assert(t.drop_first() =~= chars@.subrange(i + 1, to as int));
        i = i + 1;
    }
    let ghost after_start = chars@.subrange(i as int, to as int);
    assert(trim_start(after_start) == after_start);
    let mut j = to;
    while j > i && is_whitespace(chars[j - 1])
        invariant
            from <= i <= j <= to <= chars@.len(),
            trim_start(s) == chars@.subrange(i as int, to as int),
            trim_end(chars@.subrange(i as int, to as int)) == trim_end(chars@.subrange(i as int, j as int)),
        decreases j - i,
    {
        let ghost t = chars@.subrange(i as int, j as int);
        assert(t.drop_last() =~= chars@.subrange(i as int, j - 1));
        j = j - 1;
    }
    let ghost last = chars@.subrange(i as int, j as int);
    assert(trim_end(last) == last);
    (i, j)
}

/// Where `pat` first occurs in `text`.
fn find_first(text: &Vec<char>, pat: &Vec<char>) -> (r: Option<usize>)
    ensures
        match r {
            Some(i) => first_occurrence(text@, pat@) == Some(i as int),
            None => first_occurrence(text@, pat@) is None,
        },
{
    let n = text.len();
    let m = pat.len();
    if m > n {
        assert forall|i: int| !is_first_occurrence(text@, pat@, i) by {}
        return None;
    }
    if m == 0 {
        assert(text@.subrange(0, 0) =~= pat@);
        assert(is_first_occurrence(text@, pat@, 0));
        proof {
            let p = choose|p: int| is_first_occurrence(text@, pat@, p);
            assert(p == 0);
        }
        return Some(0);
    }
    let mut i: usize = 0;
    while i <= n - m
        invariant
            n == text@.len(),
            m == pat@.len(),
            0 < m <= n,
            i <= n - m + 1,
            forall|j: int| 0 <= j < i ==> !occurs_at(text@, pat@, j),
        decreases n - m + 1 - i,
    {
        let mut k: usize = 0;
        let mut matched = true;
        while k < m
            invariant
                n == text@.len(),
                m == pat@.len(),
                i + m <= n,
                k <= m,
                matched ==> forall|l: int| 0 <= l < k ==> text@[i + l] == pat@[l],
                !matched ==> !occurs_at(text@, pat@, i as int),
            decreases m - k,
        {
            if matched && text[i + k] != pat[k] {
                matched = false;
                assert(text@.subrange(i as int, i + m)[k as int] != pat@[k as int]);
            }
            k = k + 1;
        }
        if matched {
            assert(text@.subrange(i as int, i + m) =~= pat@);
            assert(is_first_occurrence(text@, pat@, i as int));
            proof {
                let p = choose|p: int| is_first_occurrence(text@, pat@, p);
                if p < i {
                    assert(!occurs_at(text@, pat@, p));
                } else if i < p {
                    assert(!occurs_at(text@, pat@, i as int));
                }
            }
            return Some(i);
        }
        i = i + 1;
    }
    assert forall|p: int| !is_first_occurrence(text@, pat@, p) by {
        if 0 <= p && p + m <= n {
            assert(p < i);
        }
    }
    None
}

/// Whether one of `keys` is `name`.
fn contains_key(keys: &Vec<String>, name: &str) -> (r: bool)
    ensures
        r == keys@.map_values(|k: String| k@).to_set().contains(name@),
{
    let target = name.to_owned();
    let ghost views = keys@.map_values(|k: String| k@);
    let mut i: usize = 0;
    while i < keys.len()
        invariant
            i <= keys@.len(),
            target@ == name@,
            views == keys@.map_values(|k: String| k@),
            forall|j: int| 0 <= j < i ==> keys@[j]@ != name@,
        decreases keys@.len() - i,
    {
        if keys[i] == target {
            assert(views[i as int] == name@);
            return true;
        }
        i = i + 1;
    }
    assert(!views.contains(name@));
    false
}

/// The text `"name":`.
fn component_pattern_text(name: &str) -> (r: String)
    ensures
        r@ == component_pattern(name@),
{
    let mut pattern = String::new();
    proof {
        reveal_strlit("\"");
        reveal_strlit("\":");
    }
    pattern.append("\"");
    pattern.append(name);
    pattern.append("\":");
    assert(pattern@ =~= component_pattern(name@));
    pattern
}

/// Extracts the RON text of component `component_name` from a serialized
/// map of components (`{"path::Type":(...)}`).
pub fn extract_component_data(component_name: &str, serialized_data: &str) -> (r: Option<String>)
    requires
        !extraction_panics(component_name@, serialized_data@, ron_map_keys(serialized_data@)),
    ensures
        match r {
            Some(s) => extracted_component(component_name@, serialized_data@, ron_map_keys(serialized_data@))
                == Some(s@),
            None => extracted_component(component_name@, serialized_data@, ron_map_keys(serialized_data@)) is None,
        },
{
    let keys = match parse_ron_map_keys(serialized_data) {
        Some(keys) => keys,
        None => return None,
    };
    if !contains_key(&keys, component_name) {
        return None;
    }
    let pattern = component_pattern_text(component_name);
    let data = chars_of(serialized_data);
    let pat = chars_of(pattern.as_str());
    let start = match find_first(&data, &pat) {
        Some(start) => start,
        None => return None,
    };
    assert(is_first_occurrence(data@, pat@, start as int));
    assert(occurs_at(data@, pat@, start as int));
    assert(start + pat@.len() <= data@.len());
    let after_colon = start + pat.len();
    let end = data.len() - 1;
    let (from, to) = trimmed_bounds(&data, after_colon, end);
    Some(serialized_data.substring_char(from, to).to_owned())
}

/// `extract_component_data` for any input: `None` where the text would be
/// sliced off a character boundary, else `Some` of what it extracts.
pub fn extract_component_data_checked(component_name: &str, serialized_data: &str) -> (r: Option<Option<String>>)
    ensures
        r is None <==> extraction_panics(component_name@, serialized_data@, ron_map_keys(serialized_data@)),
        match r {
            Some(Some(s)) => extracted_component(component_name@, serialized_data@, ron_map_keys(serialized_data@))
                == Some(s@),
            Some(None) => extracted_component(component_name@, serialized_data@, ron_map_keys(serialized_data@)) is None,
            None => true,
        },
{
    let panics = match parse_ron_map_keys(serialized_data) {
        Some(keys) => {
            if contains_key(&keys, component_name) {
                let pattern = component_pattern_text(component_name);
                let data = chars_of(serialized_data);
                let pat = chars_of(pattern.as_str());
                match find_first(&data, &pat) {
                    Some(start) => {
                        assert(is_first_occurrence(data@, pat@, start as int));
                        let n = data.len();
                        !(start + pat.len() <= n - 1 && (data[n - 1] as u32) < 128)
                    },
                    None => false,
                }
            } else {
                false
            }
        },
        None => false,
    };
    if panics {
        None
    } else {
        Some(extract_component_data(component_name, serialized_data))
    }
}


/// A component is left out of the editor's component list unless it was
/// declared for the editor (a bridge component) or is a built-in component
/// exposed to it.
pub fn should_skip_component(is_bridge_component: bool, is_exposed_component: bool) -> (r: bool)
    ensures
        r == (!is_bridge_component && !is_exposed_component),
{
    !is_bridge_component && !is_exposed_component
}

proof fn lemma_trim_start(s: Seq<char>)
    ensures
        trim_start(s).len() <= s.len(),
        trim_start(s) == s.subrange(s.len() - trim_start(s).len(), s.len() as int),
        trim_start(s).len() > 0 ==> !is_whitespace_char(trim_start(s)[0]),
    decreases s.len(),
{
    if s.len() > 0 && is_whitespace_char(s[0]) {
        lemma_trim_start(s.drop_first());
        let r = trim_start(s.drop_first());
        assert(s.drop_first().subrange(s.drop_first().len() - r.len(), s.drop_first().len() as int) =~= s.subrange(
            s.len() - r.len(),
            s.len() as int,
        ));
    } else {
        assert(s.subrange(0, s.len() as int) =~= s);
    }
}

proof fn lemma_trim_end(s: Seq<char>)
    ensures
        trim_end(s).len() <= s.len(),
        trim_end(s) == s.subrange(0, trim_end(s).len() as int),
        trim_end(s).len() > 0 ==> !is_whitespace_char(trim_end(s).last()),
    decreases s.len(),
{
    if s.len() > 0 && is_whitespace_char(s.last()) {
        lemma_trim_end(s.drop_last());
        let r = trim_end(s.drop_last());
        assert(s.drop_last().subrange(0, r.len() as int) =~= s.subrange(0, r.len() as int));
    } else {
        assert(s.subrange(0, s.len() as int) =~= s);
    }
}

/// The text extracted for a component neither starts nor ends with
/// whitespace.
pub proof fn law_extracted_text_is_trimmed(name: Seq<char>, data: Seq<char>, keys: Option<Set<Seq<char>>>)
    ensures
        extracted_component(name, data, keys) matches Some(t) ==> t.len() == 0 || (!is_whitespace_char(t[0])
            && !is_whitespace_char(t.last())),
{
    if let Some(t) = extracted_component(name, data, keys) {
        let s = data.subrange(
            first_occurrence(data, component_pattern(name)).unwrap() + component_pattern(name).len(),
            data.len() - 1,
        );
        assert(t == trim(s));
        let u = trim_start(s);
        lemma_trim_start(s);
        lemma_trim_end(u);
        if t.len() > 0 {
            assert(t[0] == u[0]);
        }
    }
}

} // verus!
