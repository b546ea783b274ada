//! Frames, samples and file names for what was generated.
use vstd::prelude::*;
use vstd::string::{StrSliceExecFns, StringExecFns};

use crate::array::{self, Array};
use crate::error::Failure;
use crate::lemmas;
use crate::model::{self, Dtype, TensorView};
use crate::scalar::{Scalar, HALF, MINUS_ONE, ONE, ZERO};
use crate::text::same;

verus! {

/// 255
pub const FULL: Scalar = 0x406F_E000_0000_0000;

/// 32767
pub const LOUDEST: Scalar = 0x40DF_FFC0_0000_0000;

/// `min(max((x + 1) / 2, 0), 1) * 255` as bytes, `(F, H, W, C)`.
pub open spec fn rgb_of(video: TensorView) -> TensorView {
    let x = model::affine(model::squeeze(video, 0), model::number(ONE), model::number(ONE));
    let x = model::clamp(model::affine(x, model::number(HALF), model::number(ZERO)), ZERO, ONE);
    let bytes = model::cast(model::affine(x, model::number(FULL), model::number(ZERO)), Dtype::U8);
    model::permute(bytes, seq![1, 2, 3, 0])
}

/// Frame `i`, row by row, the channels of a pixel side by side.
pub open spec fn frame_of(rgb: TensorView, i: nat) -> TensorView {
    model::flatten(model::squeeze(model::narrow(rgb, 0, i, 1), 0))
}

/// The frames of a video `(1, C, F, H, W)` with elements from -1 to 1, as bytes, and their
/// height and width.
pub fn tensor_to_rgb_frames(video: &Array) -> (r: Result<(Vec<Vec<u8>>, usize, usize), Failure>)
    ensures
        r matches Ok(f) ==> video@.rank() == 5 && f.0@.len() == video@.dims[2] && f.1 == video@.dims[3] && f.2
            == video@.dims[4] && forall|i: int|
            0 <= i < f.0@.len() ==> array::can_hold_bytes(frame_of(rgb_of(video@), i as nat), (#[trigger] f.0@[i])@),
        video@.rank() != 5 ==> r == Err::<(Vec<Vec<u8>>, usize, usize), Failure>(
            Failure::Rank { expected: 5, got: video@.rank() as usize },
        ),
        video.on_cpu() && video@.dtype.float() && video@.rank() == 5 && video@.dims[0] == 1 ==> r is Ok,
{
    let (_b, _c, f, h, w) = video.dims5()?;
    let x = video.squeeze(0)?.shift(ONE)?.scale(HALF)?.clamp(ZERO, ONE)?;
    let ghost fine = video.on_cpu() && video@.dtype.float() && video@.rank() == 5 && video@.dims[0] == 1;
    let bytes = x.scale(FULL)?.to_dtype(Dtype::U8)?;
    let rgb = bytes.permute4(1, 2, 3, 0)?;
    proof {
        lemmas::lemma_permute_dims(bytes@, seq![1, 2, 3, 0]);
    }
    let mut frames: Vec<Vec<u8>> = Vec::new();
    let mut i: usize = 0;
    while i < f
        invariant
            i <= f,
            video@.rank() == 5,
            rgb@ == rgb_of(video@),
            fine == (video.on_cpu() && video@.dtype.float() && video@.rank() == 5 && video@.dims[0] == 1),
            fine ==> rgb.on_cpu() && rgb@.rank() == 4 && rgb@.dims[0] == f && rgb@.dtype == Dtype::U8,
            frames@.len() == i,
            forall|k: int| 0 <= k < i ==> array::can_hold_bytes(
                    frame_of(rgb_of(video@), k as nat),
                    (#[trigger] frames@[k])@,
                ),
        decreases f - i,
    {
        proof {
            lemmas::lemma_narrow_dims(rgb@, 0, i as nat, 1);
        }
        let frame = rgb.narrow(0, i, 1)?.squeeze(0)?;
        let line = frame.flatten_all()?;
        let bytes = line.to_bytes()?;
        assert(line.held_bytes() == bytes@);
        frames.push(bytes);
        i = i + 1;
    }
    Ok((frames, h, w))
}

/// `min(max(x, -1), 1) * 32767` as integers, the channels of a sample side by side.
pub open spec fn samples_of(audio: TensorView) -> TensorView {
    let x = model::clamp(model::cast(audio, Dtype::F32), MINUS_ONE, ONE);
    let x = model::affine(x, model::number(LOUDEST), model::number(ZERO));
    model::cast(model::flatten(model::transpose(x, 0, 1)), Dtype::I64)
}

/// The nearest 16-bit integer.
pub open spec fn saturated(n: i64) -> i16 {
    if n < i16::MIN {
        i16::MIN
    } else if n > i16::MAX {
        i16::MAX
    } else {
        n as i16
    }
}

/// The samples of a sound `(C, S)` with elements from -1 to 1, and its number of channels.
pub fn wav_samples(audio: &Array) -> (r: Result<(Vec<i16>, usize), Failure>)
    ensures
        r matches Ok(w) ==> audio@.rank() == 2 && w.1 == audio@.dims[0] && exists|read: Seq<i64>| #[trigger]
            array::can_hold(samples_of(audio@), read) && w.0@ == read.map_values(|n: i64| saturated(n)),
        audio@.rank() != 2 ==> r == Err::<(Vec<i16>, usize), Failure>(
            Failure::Rank { expected: 2, got: audio@.rank() as usize },
        ),
        audio.usable() && audio@.rank() == 2 ==> r is Ok,
{
    let (channels, _samples) = audio.dims2()?;
    let x = audio.to_dtype(Dtype::F32)?.clamp(MINUS_ONE, ONE)?.scale(LOUDEST)?;
    proof {
        lemmas::lemma_permute_dims(x@, model::swapped(2, 0, 1));
    }
    let line = x.transpose(0, 1)?.flatten_all()?.to_dtype(Dtype::I64)?;
    let read = line.to_integers()?;
    assert(array::can_hold(samples_of(audio@), read@)) by {
        assert(line.held_integers() == read@);
    }
    let mut out: Vec<i16> = Vec::new();
    let mut i: usize = 0;
    while i < read.len()
        invariant
            i <= read.len(),
            out@.len() == i,
            forall|k: int| 0 <= k < i ==> #[trigger] out@[k] == saturated(read@[k]),
        decreases read.len() - i,
    {
        let n: i64 = read[i];
        if n < -32768 {
            out.push(-32768);
        } else if n > 32767 {
            out.push(32767);
        } else {
            out.push(n as i16);
        }
        i = i + 1;
    }
    assert(out@ =~= read@.map_values(|n: i64| saturated(n)));
    Ok((out, channels))
}

// File names.

/// How much of the first `n` characters of a path is left without separators and dots at
/// its end that name nothing.
pub open spec fn tidy_len(path: Seq<char>, n: nat) -> nat
    decreases n,
{
    if n > 1 && (path[n - 1] == '/' || (path[n - 1] == '.' && path[n - 2] == '/')) {
        tidy_len(path, (n - 1) as nat)
    } else {
        n
    }
}

/// Where the last component of the first `n` characters of a path begins.
pub open spec fn name_start(path: Seq<char>, n: nat) -> nat
    decreases n,
{
    if n == 0 || path[n - 1] == '/' {
        n
    } else {
        name_start(path, (n - 1) as nat)
    }
}

/// Where the last dot behind position `a` and before position `n` is, or `n`.
pub open spec fn dot_in(path: Seq<char>, a: nat, n: nat, m: nat) -> nat
    decreases m,
{
    if m <= a + 1 {
        n
    } else if path[m - 1] == '.' {
        (m - 1) as nat
    } else {
        dot_in(path, a, n, (m - 1) as nat)
    }
}

/// Whether a component is the name of a file: there is one, and it leads neither to the same
/// directory nor up.
pub open spec fn names_file(name: Seq<char>) -> bool {
    name.len() > 0 && name != "."@ && name != ".."@
}

/// The name of a path's file without what is behind its last dot; a dot in front does not
/// count.
pub open spec fn stem_of(path: Seq<char>) -> Seq<char> {
    let n = tidy_len(path, path.len());
    let a = name_start(path, n);
    if names_file(path.subrange(a as int, n as int)) {
        path.subrange(a as int, dot_in(path, a, n, n) as int)
    } else {
        "maor_output"@
    }
}

/// The directory of a path; empty where it is not named.
pub open spec fn parent_of(path: Seq<char>) -> Seq<char> {
    let n = tidy_len(path, path.len());
    let a = name_start(path, n);
    if a == n {
        Seq::empty()
    } else {
        path.subrange(0, tidy_len(path, a) as int)
    }
}

/// The directory with a separator behind it, unless it is empty or ends in one.
pub open spec fn directory_prefix(parent: Seq<char>) -> Seq<char> {
    if parent.len() == 0 || parent.last() == '/' {
        parent
    } else {
        parent.push('/')
    }
}

/// The path beside `path` with a suffix and another extension.
pub open spec fn sidecar_of(path: Seq<char>, suffix: Seq<char>, extension: Seq<char>) -> Seq<char> {
    directory_prefix(parent_of(path)) + stem_of(path) + "."@ + suffix + "."@ + extension
}

fn tidy(path: &str, n: usize) -> (r: usize)
    requires
        n <= path@.len(),
    ensures
        r == tidy_len(path@, n as nat),
        r <= n,
{
    let mut m: usize = n;
    while m > 1 && (path.get_char(m - 1) == '/' || (path.get_char(m - 1) == '.' && path.get_char(m - 2) == '/'))
        invariant
            m <= n <= path@.len(),
            tidy_len(path@, m as nat) == tidy_len(path@, n as nat),
        decreases m,
    {
        m = m - 1;
    }
    m
}

fn start_of_name(path: &str, n: usize) -> (r: usize)
    requires
        n <= path@.len(),
    ensures
        r == name_start(path@, n as nat),
        r <= n,
{
    let mut m: usize = n;
    while m > 0 && path.get_char(m - 1) != '/'
        invariant
            m <= n <= path@.len(),
            name_start(path@, m as nat) == name_start(path@, n as nat),
        decreases m,
    {
        m = m - 1;
    }
    m
}

fn last_dot(path: &str, a: usize, n: usize) -> (r: usize)
    requires
        a < n <= path@.len(),
    ensures
        r == dot_in(path@, a as nat, n as nat, n as nat),
        a < r <= n,
{
    let mut m: usize = n;
    while m > a + 1
        invariant
            a < m <= n <= path@.len(),
            dot_in(path@, a as nat, n as nat, m as nat) == dot_in(path@, a as nat, n as nat, n as nat),
        decreases m,
    {
        if path.get_char(m - 1) == '.' {
            return m - 1;
        }
        m = m - 1;
    }
    n
}

/// The path beside `output_path` whose name has a suffix and another extension.
pub fn sidecar_path(output_path: &str, suffix: &str, extension: &str) -> (r: String)
    ensures
        r@ == sidecar_of(output_path@, suffix@, extension@),
{
    let n: usize = tidy(output_path, output_path.unicode_len());
    let a: usize = start_of_name(output_path, n);
    let name = output_path.substring_char(a, n);
    let mut path = if a == n {
        "".to_owned()
    } else {
        let end: usize = tidy(output_path, a);
        let parent = output_path.substring_char(0, end);
        let mut dir = parent.to_owned();
        if end > 0 && output_path.get_char(end - 1) != '/' {
            dir.append("/");
        }
        dir
    };
    proof {
        reveal_strlit("");
        reveal_strlit("/");
        reveal_strlit(".");
        reveal_strlit("..");
    }
    assert(path@ =~= directory_prefix(parent_of(output_path@)));
    let stem = if a < n && !same(name, ".") && !same(name, "..") {
        output_path.substring_char(a, last_dot(output_path, a, n))
    } else {
        "maor_output"
    };
    assert(stem@ == stem_of(output_path@));
    path.append(stem);
    path.append(".");
    path.append(suffix);
    path.append(".");
    path.append(extension);
    path
}

/// A path made of a directory and a name with a dot: the name up to the last dot is the stem.
pub proof fn law_sidecar_of_plain_path(dir: Seq<char>, stem: Seq<char>, ext: Seq<char>, suffix: Seq<char>, extension: Seq<char>)
    requires
        dir.len() > 0,
        dir.last() != '/',
        !(dir.len() >= 2 && dir.last() == '.' && dir[dir.len() - 2] == '/'),
        stem.len() > 0,
        ext.len() > 0,
        forall|i: int| 0 <= i < stem.len() ==> #[trigger] stem[i] != '/',
        forall|i: int| 0 <= i < ext.len() ==> #[trigger] ext[i] != '/' && ext[i] != '.',
    ensures
        sidecar_of(dir.push('/') + stem.push('.') + ext, suffix, extension) == dir.push('/') + stem + "."@ + suffix
            + "."@ + extension,
{
    let path = dir.push('/') + stem.push('.') + ext;
    let n = path.len();
    let a = dir.len() + 1;
    let d = a + stem.len();
    assert(path[d as int] == '.');
    assert(path.last() == ext.last());
    assert(path.last() != '/' && path.last() != '.');
    assert(tidy_len(path, n) == n);
    lemma_start_here(path, a, n);
    lemma_dot_here(path, a, d, n, n);
    reveal_strlit(".");
    reveal_strlit("..");
    let name = path.subrange(a as int, n as int);
    assert(name.len() >= 3);
    assert(path.subrange(a as int, d as int) =~= stem);
    assert(path[a - 1] == '/');
    assert(tidy_len(path, a) == tidy_len(path, (a - 1) as nat));
    assert(path[a - 2] == dir.last());
    assert(tidy_len(path, (a - 1) as nat) == a - 1);
    assert(path.subrange(0, a - 1) =~= dir);
}

/// The path beside another leads to another file: its stem is longer by the suffix.
pub proof fn law_sidecar_is_another_file(path: Seq<char>, suffix: Seq<char>, extension: Seq<char>)
    requires
        extension.len() > 0,
        forall|i: int| 0 <= i < suffix.len() ==> #[trigger] suffix[i] != '/',
        forall|i: int| 0 <= i < extension.len() ==> #[trigger] extension[i] != '/' && extension[i] != '.',
    ensures
        stem_of(sidecar_of(path, suffix, extension)) == stem_of(path) + "."@ + suffix,
        sidecar_of(path, suffix, extension) != path,
{
    reveal_strlit(".");
    reveal_strlit("..");
    reveal_strlit("maor_output");
    let (prefix, stem) = (directory_prefix(parent_of(path)), stem_of(path));
    let side = sidecar_of(path, suffix, extension);
    let (a, n) = (prefix.len(), side.len());
    let d = (a + stem.len() + 1 + suffix.len()) as nat;
    lemma_plain_stem(path);
    assert(side[d as int] == '.');
    assert forall|i: int| d < i < n implies #[trigger] side[i] != '.' && side[i] != '/' by {
        assert(side[i] == extension[i - d - 1]);
    }
    assert forall|i: int| a <= i < n implies #[trigger] side[i] != '/' by {
        if i < a + stem.len() {
            assert(side[i] == stem[i - a]);
        } else if i > a + stem.len() && i < d {
            assert(side[i] == suffix[i - a - stem.len() - 1]);
        }
    }
    assert(tidy_len(side, n) == n);
    if a > 0 {
        assert(side[a - 1] == prefix.last());
        lemma_start_here(side, a, n);
    } else {
        lemma_start_of_all(side, n);
    }
    lemma_dot_here(side, a, d, n, n);
    let name = side.subrange(a as int, n as int);
    assert(name.last() == extension.last());
    assert(names_file(name));
    assert(side.subrange(a as int, d as int) =~= stem + "."@ + suffix);
    assert((stem + "."@ + suffix).len() > stem.len());
}

/// Two paths beside one path are different where their suffixes or extensions are.
pub proof fn law_sidecars_differ(path: Seq<char>, one: (Seq<char>, Seq<char>), other: (Seq<char>, Seq<char>))
    requires
        forall|i: int| 0 <= i < one.0.len() ==> #[trigger] one.0[i] != '.',
        forall|i: int| 0 <= i < other.0.len() ==> #[trigger] other.0[i] != '.',
        sidecar_of(path, one.0, one.1) == sidecar_of(path, other.0, other.1),
    ensures
        one == other,
{
    reveal_strlit(".");
    let prefix = directory_prefix(parent_of(path)) + stem_of(path) + "."@;
    let (a, b) = (sidecar_of(path, one.0, one.1), sidecar_of(path, other.0, other.1));
    let n = prefix.len() as int;
    assert(a[n + one.0.len()] == '.');
    assert(b[n + other.0.len()] == '.');
    if one.0.len() < other.0.len() {
        assert(b[n + one.0.len()] == other.0[one.0.len() as int]);
    }
    if other.0.len() < one.0.len() {
        assert(a[n + other.0.len()] == one.0[other.0.len() as int]);
    }
    let k = one.0.len();
    assert(one.0 =~= a.subrange(n, n + k));
    assert(other.0 =~= b.subrange(n, n + k));
    assert(one.1 =~= a.subrange(n + k + 1, a.len() as int));
    assert(other.1 =~= b.subrange(n + k + 1, b.len() as int));
}

/// A stem is not empty and names no directory, and the directory of a path is followed by a
/// separator.
proof fn lemma_plain_stem(path: Seq<char>)
    ensures
        stem_of(path).len() > 0,
        forall|i: int| 0 <= i < stem_of(path).len() ==> #[trigger] stem_of(path)[i] != '/',
        directory_prefix(parent_of(path)).len() > 0 ==> directory_prefix(parent_of(path)).last() == '/',
{
    reveal_strlit("maor_output");
    let n = tidy_len(path, path.len());
    let a = name_start(path, n);
    lemma_tidy(path, path.len());
    lemma_name(path, n);
    lemma_dot(path, a, n, n);
    let name = path.subrange(a as int, n as int);
    if names_file(name) {
        assert(a < n);
        let stem = path.subrange(a as int, dot_in(path, a, n, n) as int);
        assert forall|i: int| 0 <= i < stem.len() implies #[trigger] stem[i] != '/' by {
            assert(stem[i] == path[a + i]);
        }
    }
}

proof fn lemma_tidy(path: Seq<char>, n: nat)
    requires
        n <= path.len(),
    ensures
        tidy_len(path, n) <= n,
    decreases n,
{
    if n > 1 && (path[n - 1] == '/' || (path[n - 1] == '.' && path[n - 2] == '/')) {
        lemma_tidy(path, (n - 1) as nat);
    }
}

proof fn lemma_name(path: Seq<char>, n: nat)
    requires
        n <= path.len(),
    ensures
        name_start(path, n) <= n,
        forall|i: int| name_start(path, n) <= i < n ==> #[trigger] path[i] != '/',
    decreases n,
{
    if n > 0 && path[n - 1] != '/' {
        lemma_name(path, (n - 1) as nat);
    }
}

proof fn lemma_dot(path: Seq<char>, a: nat, n: nat, m: nat)
    requires
        a <= n,
        m <= n <= path.len(),
    ensures
        a < n ==> a < dot_in(path, a, n, m) <= n,
    decreases m,
{
    if m > a + 1 && path[m - 1] != '.' {
        lemma_dot(path, a, n, (m - 1) as nat);
    }
}

proof fn lemma_start_of_all(path: Seq<char>, n: nat)
    requires
        n <= path.len(),
        forall|i: int| 0 <= i < n ==> #[trigger] path[i] != '/',
    ensures
        name_start(path, n) == 0,
    decreases n,
{
    if n > 0 {
        assert(path[n - 1] != '/');
        lemma_start_of_all(path, (n - 1) as nat);
    }
}

proof fn lemma_start_here(path: Seq<char>, a: nat, n: nat)
    requires
        0 < a <= n <= path.len(),
        path[a - 1] == '/',
        forall|i: int| a <= i < n ==> #[trigger] path[i] != '/',
    ensures
        name_start(path, n) == a,
    decreases n,
{
    if n > a {
        assert(path[n - 1] != '/');
        lemma_start_here(path, a, (n - 1) as nat);
    }
}

proof fn lemma_dot_here(path: Seq<char>, a: nat, d: nat, n: nat, m: nat)
    requires
        a < d < m <= n <= path.len(),
        path[d as int] == '.',
        forall|i: int| d < i < n ==> #[trigger] path[i] != '.',
    ensures
        dot_in(path, a, n, m) == d,
    decreases m,
{
    if m > d + 1 {
        assert(path[m - 1] != '.');
        lemma_dot_here(path, a, d, n, (m - 1) as nat);
    }
}

} // verus!
