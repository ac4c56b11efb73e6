//! The name of the file that an image is written to.
use crate::text::decimal;
use crate::text::push_decimal;
use vstd::prelude::*;

verus! {

/// Where the file name starts in a path: behind the last `/`, or at the
/// front where there is none.
pub open spec fn name_start(path: Seq<char>) -> int
    decreases path.len(),
{
    if path.len() == 0 {
        0
    } else if path.last() == '/' {
        path.len() as int
    } else {
        name_start(path.drop_last())
    }
}

/// Where the first `.` stands at or behind `from`, or the end of the path
/// where there is none.
pub open spec fn stem_end(path: Seq<char>, from: int) -> int
    decreases path.len() - from,
{
    if from >= path.len() {
        path.len() as int
    } else if path[from] == '.' {
        from
    } else {
        stem_end(path, from + 1)
    }
}

/// The stem of the file that a path names: the file name up to its first
/// `.`.
pub open spec fn stem_of(path: Seq<char>) -> Seq<char> {
    path.subrange(name_start(path), stem_end(path, name_start(path)))
}

/// The path of the image of a file: `output/<stem>_<width>x<height>.png`.
pub open spec fn output_name(path: Seq<char>, width: nat, height: nat) -> Seq<char> {
    "output/"@ + stem_of(path) + "_"@ + decimal(width) + "x"@ + decimal(height) + ".png"@
}

/// The file name starts behind a `/` or at the front of the path, and holds
/// no `/`.
pub proof fn lemma_name_start(path: Seq<char>)
    ensures
        0 <= name_start(path) <= path.len(),
        name_start(path) > 0 ==> path[name_start(path) - 1] == '/',
        forall|at: int| name_start(path) <= at < path.len() ==> path[at] != '/',
    decreases path.len(),
{
    if path.len() > 0 && path.last() != '/' {
        let front = path.drop_last();
        lemma_name_start(front);
        assert(name_start(front) > 0 ==> front[name_start(front) - 1] == path[name_start(path)
            - 1]);
        assert forall|at: int| name_start(path) <= at < path.len() implies path[at] != '/' by {
            if at < front.len() {
                assert(front[at] == path[at]);
            }
        }
    }
}

/// The stem ends before a `.` or at the end of the path, and holds no `.`.
pub proof fn lemma_stem_end(path: Seq<char>, from: int)
    requires
        0 <= from <= path.len(),
    ensures
        from <= stem_end(path, from) <= path.len(),
        stem_end(path, from) < path.len() ==> path[stem_end(path, from)] == '.',
        forall|at: int| from <= at < stem_end(path, from) ==> path[at] != '.',
    decreases path.len() - from,
{
    if from < path.len() && path[from] != '.' {
        lemma_stem_end(path, from + 1);
    }
}

/// The path of the image that is computed from a file, named after the
/// file's stem and the size of the image.
pub fn output_path(file_path: &str, width: usize, height: usize) -> (path: String)
    ensures
        path@ == output_name(file_path@, width as nat, height as nat),
{
    let length: usize = file_path.unicode_len();
    let mut start: usize = 0;
    let mut at: usize = 0;
    assert(file_path@.take(0) =~= Seq::<char>::empty());
    while at < length
        invariant
            at <= length == file_path@.len(),
            start == name_start(file_path@.take(at as int)),
            start <= at,
        decreases length - at,
    {
        let c: char = file_path.get_char(at);
        proof {
            let seen = file_path@.take(at + 1);
            assert(seen.drop_last() =~= file_path@.take(at as int));
            assert(seen.last() == c);
        }
        at += 1;
        if c == '/' {
            start = at;
        }
    }
    assert(file_path@.take(length as int) =~= file_path@);
    let mut end: usize = start;
    while end < length && file_path.get_char(end) != '.'
        invariant
            start <= end <= length == file_path@.len(),
            stem_end(file_path@, start as int) == stem_end(file_path@, end as int),
        decreases length - end,
    {
        end += 1;
    }
    let mut path = String::from_str("output/");
    path.append(file_path.substring_char(start, end));
    path.append("_");
    push_decimal(&mut path, width as u64);
    path.append("x");
    push_decimal(&mut path, height as u64);
    path.append(".png");
    path
}

} // verus!
