use vstd::prelude::*;

verus! {

/// Side of the square test image, in pixels.
pub const PATTERN_SIDE: usize = 100;

/// `img` is the banded test image at time `time_ms`: every pixel of a row
/// holds one shade that `shade` gives for that row and that time.
pub open spec fn is_pattern<F: Fn(usize, u128) -> u8>(img: [u8; 10000], time_ms: u128, shade: F) -> bool {
    forall|n: int|
        0 <= n < 10000 ==> shade.ensures(((n / 100) as usize, time_ms), #[trigger] img[n]) && img[n]
            == img[(n / 100) * 100]
}

/// Milliseconds since the Unix epoch on the system clock, or `None` when the
/// clock reads earlier than the epoch.
/// Relies on std's `SystemTime::elapsed`, called on `UNIX_EPOCH`; the
/// `Duration` it returns is expressed in whole milliseconds by
/// `Duration::as_millis`. The reading depends on the clock, so nothing is
/// stated of it.
#[verifier::external_body]
fn millis_since_epoch() -> (r: Option<u128>) {
    match std::time::UNIX_EPOCH.elapsed() {
        Ok(d) => Some(d.as_millis()),
        Err(_) => None,
    }
}

/// The banded test image at time `time_ms`: `shade` is called once per row,
/// with the row index and the time, and its result fills that row.
pub fn sin_pattern<F: Fn(usize, u128) -> u8>(time_ms: u128, shade: &F) -> (r: [u8; 10000])
    requires
        forall|row: usize| row < PATTERN_SIDE ==> shade.requires((row, time_ms)),
    ensures
        is_pattern(r, time_ms, *shade),
{
    let mut data = [0u8; 10000];
    let mut row: usize = 0;
    while row < PATTERN_SIDE
        invariant
            row <= PATTERN_SIDE,
            forall|r: usize| r < PATTERN_SIDE ==> shade.requires((r, time_ms)),
            forall|n: int|
                0 <= n < row * 100 ==> shade.ensures(((n / 100) as usize, time_ms), #[trigger] data[n])
                    && data[n] == data[(n / 100) * 100],
        decreases PATTERN_SIDE - row,
    {
        let v = shade(row, time_ms);
        let mut col: usize = 0;
        while col < PATTERN_SIDE
            invariant
                row < PATTERN_SIDE,
                col <= PATTERN_SIDE,
                shade.ensures((row, time_ms), v),
                forall|n: int|
                    0 <= n < row * 100 ==> shade.ensures(((n / 100) as usize, time_ms), #[trigger] data[n])
                        && data[n] == data[(n / 100) * 100],
                forall|n: int| row * 100 <= n < row * 100 + col ==> #[trigger] data[n] == v,
            decreases PATTERN_SIDE - col,
        {
            data[row * 100 + col] = v;
            col += 1;
        }
        assert forall|n: int| 0 <= n < (row + 1) * 100 implies shade.ensures(
            ((n / 100) as usize, time_ms),
            #[trigger] data[n],
        ) && data[n] == data[(n / 100) * 100] by {
            if n >= row * 100 {
                assert(n / 100 == row);
            }
        }
        row += 1;
    }
    data
}

/// The banded test image at the present time of the system clock: `None`
/// when the clock reads earlier than the Unix epoch, else the image that
/// `sin_pattern` gives for one reading of the clock, in milliseconds.
pub fn get_sin<F: Fn(usize, u128) -> u8>(shade: &F) -> (r: Option<[u8; 10000]>)
    requires
        forall|row: usize, t: u128| row < PATTERN_SIDE ==> shade.requires((row, t)),
    ensures
        r is Some ==> exists|t: u128| #[trigger] is_pattern(r->Some_0, t, *shade),
{
    match millis_since_epoch() {
        Some(t) => {
            let img = sin_pattern(t, shade);
            let r = Some(img);
            assert(is_pattern(r->Some_0, t, *shade));
            r
        },
        None => None,
    }
}

} // verus!
