//! Assembling messages from pieces.
use vstd::prelude::*;

verus! {

/// Two pieces one after the other.
pub fn text2(a: &str, b: &str) -> (r: String)
    ensures
        r@ == a@ + b@,
{
    let mut r: String = a.to_owned();
    r.append(b);
    r
}

/// Three pieces one after the other.
pub fn text3(a: &str, b: &str, c: &str) -> (r: String)
    ensures
        r@ == a@ + b@ + c@,
{
    let mut r: String = text2(a, b);
    r.append(c);
    r
}

/// Four pieces one after the other.
pub fn text4(a: &str, b: &str, c: &str, d: &str) -> (r: String)
    ensures
        r@ == a@ + b@ + c@ + d@,
{
    let mut r: String = text3(a, b, c);
    r.append(d);
    r
}

/// Five pieces one after the other.
pub fn text5(a: &str, b: &str, c: &str, d: &str, e: &str) -> (r: String)
    ensures
        r@ == a@ + b@ + c@ + d@ + e@,
{
    let mut r: String = text4(a, b, c, d);
    r.append(e);
    r
}

/// Six pieces one after the other.
pub fn text6(a: &str, b: &str, c: &str, d: &str, e: &str, f: &str) -> (r: String)
    ensures
        r@ == a@ + b@ + c@ + d@ + e@ + f@,
{
    let mut r: String = text5(a, b, c, d, e);
    r.append(f);
    r
}

/// Seven pieces one after the other.
pub fn text7(
    a: &str,
    b: &str,
    c: &str,
    d: &str,
    e: &str,
    f: &str,
    g: &str,
) -> (r: String)
    ensures
        r@ == a@ + b@ + c@ + d@ + e@ + f@ + g@,
{
    let mut r: String = text6(a, b, c, d, e, f);
    r.append(g);
    r
}

/// Eight pieces one after the other.
pub fn text8(
    a: &str,
    b: &str,
    c: &str,
    d: &str,
    e: &str,
    f: &str,
    g: &str,
    h: &str,
) -> (r: String)
    ensures
        r@ == a@ + b@ + c@ + d@ + e@ + f@ + g@ + h@,
{
    let mut r: String = text7(a, b, c, d, e, f, g);
    r.append(h);
    r
}

/// Nine pieces one after the other.
pub fn text9(
    a: &str,
    b: &str,
    c: &str,
    d: &str,
    e: &str,
    f: &str,
    g: &str,
    h: &str,
    i: &str,
) -> (r: String)
    ensures
        r@ == a@ + b@ + c@ + d@ + e@ + f@ + g@ + h@ + i@,
{
    let mut r: String = text8(a, b, c, d, e, f, g, h);
    r.append(i);
    r
}

/// Ten pieces one after the other.
pub fn text10(
    a: &str,
    b: &str,
    c: &str,
    d: &str,
    e: &str,
    f: &str,
    g: &str,
    h: &str,
    i: &str,
    j: &str,
) -> (r: String)
    ensures
        r@ == a@ + b@ + c@ + d@ + e@ + f@ + g@ + h@ + i@ + j@,
{
    let mut r: String = text9(a, b, c, d, e, f, g, h, i);
    r.append(j);
    r
}

/// Eleven pieces one after the other.
pub fn text11(
    a: &str,
    b: &str,
    c: &str,
    d: &str,
    e: &str,
    f: &str,
    g: &str,
    h: &str,
    i: &str,
    j: &str,
    k: &str,
) -> (r: String)
    ensures
        r@ == a@ + b@ + c@ + d@ + e@ + f@ + g@ + h@ + i@ + j@ + k@,
{
    let mut r: String = text10(a, b, c, d, e, f, g, h, i, j);
    r.append(k);
    r
}

} // verus!
