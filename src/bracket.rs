use vstd::prelude::*;

verus! {

/// Where the matcher stops when it goes on from `i` with `depth` braces open,
/// inside quotes or not, right after an escaping backslash or not.
pub open spec fn pair_from(p: Seq<u8>, i: nat, depth: nat, quoted: bool, escaped: bool) -> Option<nat>
    decreases p.len() - i,
{
    if depth == 0 {
        Some(i)
    } else if i >= p.len() {
        None
    } else {
        let b = p[i as int];
        if b == 0x7b && !quoted {
            pair_from(p, i + 1, depth + 1, quoted, false)
        } else if b == 0x7d && !quoted {
            pair_from(p, i + 1, (depth - 1) as nat, quoted, false)
        } else if b == 0x22 {
            pair_from(p, i + 1, depth, if escaped { quoted } else { !quoted }, false)
        } else if b == 0x5c {
            pair_from(p, i + 1, depth, quoted, !escaped)
        } else {
            pair_from(p, i + 1, depth, quoted, false)
        }
    }
}

/// The position just past the `}` that closes a `{` whose body starts at `start`.
pub open spec fn bracket_pair(p: Seq<u8>, start: nat) -> Option<nat> {
    pair_from(p, start, 1, false, false)
}

/// Finds the byte just past the `}` matching an opening `{` that stands right
/// before `on`; braces inside quoted text do not count. `None` when the region
/// is not closed before the end of the program.
pub fn find_bracket_pair(program: &[u8], on: usize) -> (r: Option<usize>)
    requires
        program@.len() < usize::MAX,
    ensures
        r matches Some(k) ==> bracket_pair(program@, on as nat) == Some(k as nat),
        r is None ==> bracket_pair(program@, on as nat) is None,
{
    let mut i: usize = on;
    let mut depth: usize = 1;
    let mut quoted = false;
    let mut escaped = false;
    while depth != 0
        invariant
            depth <= i - on + 1,
            on <= i,
            program@.len() < usize::MAX,
            pair_from(program@, i as nat, depth as nat, quoted, escaped) == bracket_pair(program@, on as nat),
        decreases program@.len() - i,
    {
        if i >= program.len() {
            return None;
        }
        let b = program[i];
        if b == 0x7b && !quoted {
            depth = depth + 1;
            escaped = false;
        } else if b == 0x7d && !quoted {
            depth = depth - 1;
            escaped = false;
        } else if b == 0x22 {
            if !escaped {
                quoted = !quoted;
            }
            escaped = false;
        } else if b == 0x5c {
            escaped = !escaped;
        } else {
            escaped = false;
        }
        i = i + 1;
    }
    Some(i)
}

} // verus!
