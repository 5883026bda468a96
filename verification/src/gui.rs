//! The integer bookkeeping of the interactive front end: the object list it
//! edits, the size of a render job, and the RGBA buffer it displays.
use vstd::prelude::*;

verus! {

/// The object list after one frame of edits: the object at `delete` (an
/// index into the list as shown) removed, the others kept in order, and
/// `add`, when given, appended.
pub fn edit_objects<T>(objects: &mut Vec<T>, add: Option<T>, delete: Option<usize>)
    requires
        delete matches Some(i) ==> i < old(objects).len(),
    ensures
        final(objects)@ == (match delete {
            Some(i) => old(objects)@.remove(i as int),
            None => old(objects)@,
        }) + (match add {
            Some(x) => seq![x],
            None => Seq::empty(),
        }),
{
    if let Some(i) = delete {
        objects.remove(i);
    }
    let ghost kept = objects@;
    if let Some(x) = add {
        objects.push(x);
        assert(objects@ =~= kept + seq![x]);
    } else {
        assert(objects@ =~= kept + Seq::empty());
    }
}

/// The number of pixels of a `width` x `height` render, which a render job
/// counts its progress against.
pub fn pixel_total(width: u32, height: u32) -> (total: u64)
    ensures
        total == width * height,
{
    assert(width * height <= u32::MAX * u32::MAX) by (nonlinear_arith)
        requires
            width <= u32::MAX,
            height <= u32::MAX,
    ;
    (width as u64) * (height as u64)
}

/// The RGBA bytes of an image, four per pixel in the given order: red, green,
/// blue, and an opaque alpha of 255.
pub fn rgba_bytes(pixels: &Vec<(u8, u8, u8)>) -> (out: Vec<u8>)
    requires
        4 * pixels.len() <= usize::MAX,
    ensures
        out.len() == 4 * pixels.len(),
        forall|k: int|
            0 <= k < pixels.len() ==> out[4 * k] == (#[trigger] pixels[k]).0 && out[4 * k + 1]
                == pixels[k].1 && out[4 * k + 2] == pixels[k].2 && out[4 * k + 3] == 255,
{
    let mut out: Vec<u8> = Vec::new();
    let mut i: usize = 0;
    while i < pixels.len()
        invariant
            i <= pixels.len(),
            out.len() == 4 * i,
            forall|k: int|
                0 <= k < i ==> out[4 * k] == (#[trigger] pixels[k]).0 && out[4 * k + 1]
                    == pixels[k].1 && out[4 * k + 2] == pixels[k].2 && out[4 * k + 3] == 255,
        decreases pixels.len() - i,
    {
        let (r, g, b) = pixels[i];
        out.push(r);
        out.push(g);
        out.push(b);
        out.push(255);
        i = i + 1;
    }
    out
}

} // verus!
