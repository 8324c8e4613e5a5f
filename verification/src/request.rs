//! The decisions of the thumbnail server's request handler: reading the item
//! id from the posted form, and what to answer at each point of the request.
use vstd::prelude::*;
use crate::mesh_file::{decimal, lemma_decimal_digits};
use crate::text::{chars_of, push_str};

verus! {

pub open spec fn is_digit(c: char) -> bool {
    48 <= (c as u32) <= 57
}

pub open spec fn all_digits(s: Seq<char>) -> bool {
    forall|i: int| 0 <= i < s.len() ==> is_digit(#[trigger] s[i])
}

/// The value of a string of decimal digits.
pub open spec fn digits_value(s: Seq<char>) -> int
    decreases s.len(),
{
    if s.len() == 0 {
        0
    } else {
        digits_value(s.drop_last()) * 10 + ((s.last() as u32) - 48)
    }
}

/// The integer that `s` denotes as an `i32` (as `str::parse::<i32>`): an
/// optional `+` or `-`, then one or more decimal digits, with a value in
/// range; `None` for anything else.
pub open spec fn parse_i32(s: Seq<char>) -> Option<i32> {
    let negative = s.len() > 0 && s[0] == '-';
    let digits = if s.len() > 0 && (s[0] == '-' || s[0] == '+') {
        s.drop_first()
    } else {
        s
    };
    if digits.len() == 0 || !all_digits(digits) {
        None
    } else {
        let v = if negative {
            -digits_value(digits)
        } else {
            digits_value(digits)
        };
        if i32::MIN <= v <= i32::MAX {
            Some(v as i32)
        } else {
            None
        }
    }
}

proof fn lemma_digits_value_nonneg(s: Seq<char>)
    requires
        forall|i: int| 0 <= i < s.len() ==> is_digit(#[trigger] s[i]),
    ensures
        digits_value(s) >= 0,
    decreases s.len(),
{
    if s.len() > 0 {
        lemma_digits_value_nonneg(s.drop_last());
    }
}

/// The decimal numeral of `n`, read back digit by digit, is `n`.
pub proof fn lemma_digits_value_of_decimal(n: nat)
    ensures
        digits_value(decimal(n)) == n,
        all_digits(decimal(n)),
        decimal(n).len() > 0,
    decreases n,
{
    lemma_decimal_digits(n);
    let d = decimal(n);
    if n >= 10 {
        lemma_digits_value_of_decimal(n / 10);
        assert(d.drop_last() =~= decimal(n / 10));
        assert((d.last() as u32) == 48 + n % 10);
        assert(digits_value(d) == digits_value(d.drop_last()) * 10 + ((d.last() as u32) - 48));
        assert(n == (n / 10) * 10 + n % 10);
    } else {
        assert(d.drop_last() =~= Seq::<char>::empty());
        assert((d.last() as u32) == 48 + n);
        assert(digits_value(d) == digits_value(d.drop_last()) * 10 + ((d.last() as u32) - 48));
    }
}

/// Every decimal numeral of a value in range reads back as that value:
/// plain, with a `+` in front, and (negated) with a `-` in front. In
/// particular all ten digit characters count as digits.
pub proof fn lemma_decimal_ids_parse(n: nat)
    ensures
        n <= i32::MAX ==> parse_i32(decimal(n)) == Some(n as i32),
        n <= i32::MAX ==> parse_i32(seq!['+'] + decimal(n)) == Some(n as i32),
        n <= 2147483648 ==> parse_i32(seq!['-'] + decimal(n)) == Some((-n) as i32),
        n > i32::MAX ==> parse_i32(decimal(n)) is None,
        n > i32::MAX ==> parse_i32(seq!['+'] + decimal(n)) is None,
        n > 2147483648 ==> parse_i32(seq!['-'] + decimal(n)) is None,
{
    lemma_digits_value_of_decimal(n);
    let d = decimal(n);
    assert(d[0] != '-' && d[0] != '+') by {
        assert(48 <= (d[0] as u32) <= 57);
    }
    assert((seq!['+'] + d).drop_first() =~= d);
    assert((seq!['-'] + d).drop_first() =~= d);
}

/// A sign alone, an empty text, or any text with a character that is not a
/// decimal digit after its optional sign, is refused.
pub proof fn lemma_non_digits_refused(s: Seq<char>, i: int)
    requires
        (if s.len() > 0 && (s[0] == '-' || s[0] == '+') {
            1 <= i < s.len()
        } else {
            0 <= i < s.len()
        }),
        !(48 <= (s[i] as u32) <= 57),
    ensures
        parse_i32(s) is None,
{
    if s.len() > 0 && (s[0] == '-' || s[0] == '+') {
        assert(s.drop_first()[i - 1] == s[i]);
    }
}

/// Reads an item id as the server does (`str::parse::<i32>`).
#[verifier::rlimit(40)]
pub fn parse_item_id(text: &str) -> (res: Option<i32>)
    ensures
        res == parse_i32(text@),
{
    let chars = chars_of(text);
    let n = chars.len();
    let negative = n > 0 && chars[0] == '-';
    let start: usize = if n > 0 && (chars[0] == '-' || chars[0] == '+') {
        1
    } else {
        0
    };
    let ghost digits = chars@.subrange(start as int, n as int);
    assert(digits =~= (if n > 0 && (chars@[0] == '-' || chars@[0] == '+') {
        chars@.drop_first()
    } else {
        chars@
    }));
    if start == n {
        return None;
    }
    // `acc` is the value of the digits read so far, held at `cap` once it is
    // out of range either way.
    let cap: i64 = 2147483649;
    let mut acc: i64 = 0;
    let mut k = start;
    assert(chars@.subrange(start as int, start as int) =~= Seq::<char>::empty());
    while k < n
        invariant
            start <= k <= n == chars.len(),
            digits == chars@.subrange(start as int, n as int),
            chars@ == text@,
            digits == (if n > 0 && (chars@[0] == '-' || chars@[0] == '+') {
                chars@.drop_first()
            } else {
                chars@
            }),
            cap == 2147483649,
            forall|i: int| start <= i < k ==> is_digit(#[trigger] chars@[i]),
            digits_value(chars@.subrange(start as int, k as int)) < cap ==> acc == digits_value(
                chars@.subrange(start as int, k as int),
            ),
            digits_value(chars@.subrange(start as int, k as int)) >= cap ==> acc == cap,
        decreases n - k,
    {
        let c = chars[k];
        let u = c as u32;
        if u < 48 || u > 57 {
            assert(digits[k - start] == c);
            assert(!is_digit(c));
            assert(!all_digits(digits));
            return None;
        }
        let ghost prev = chars@.subrange(start as int, k as int);
        proof {
            assert(chars@.subrange(start as int, k + 1).drop_last() =~= prev);
            lemma_digits_value_nonneg(prev);
        }
        let d = (u - 48) as i64;
        if acc < cap {
            let next = acc * 10 + d;
            if next >= cap {
                acc = cap;
            } else {
                acc = next;
            }
        }
        k = k + 1;
    }
    assert(chars@.subrange(start as int, n as int) == digits);
    assert(all_digits(digits)) by {
        assert forall|i: int| 0 <= i < digits.len() implies is_digit(#[trigger] digits[i]) by {
            assert(digits[i] == chars@[start + i]);
        }
    }
    proof {
        lemma_digits_value_nonneg(digits);
    }
    if negative {
        if acc <= 2147483648 {
            Some((-acc) as i32)
        } else {
            None
        }
    } else {
        if acc <= 2147483647 {
            Some(acc as i32)
        } else {
            None
        }
    }
}

/// An answer to a request.
pub enum Reply {
    /// A status with no body.
    Empty { status: u16 },
    /// A status with a plain text body.
    Text { status: u16, body: String },
}

/// What has just happened while serving a render request.
pub enum HandlerEvent {
    /// The posted form was read: the text of its `id` field, or `None` when
    /// the form has no such field.
    FormRead(Option<String>),
    /// The asset lookup finished: the mesh and texture locations, or `None`
    /// when the item could not be served.
    AssetFetched(Option<(String, String)>),
    /// Whether the render thread took the job.
    RenderQueued(bool),
    /// The render thread's answer (the image in base64), or `None` when it
    /// dropped the job.
    RenderDone(Option<String>),
}

/// What the handler does next.
pub enum HandlerStep {
    /// Look the item up in the database.
    FetchAsset(i32),
    /// Hand the render thread this mesh and texture.
    QueueRender { mesh: String, texture: String },
    /// Wait for the render thread's answer.
    AwaitRender,
    /// Answer the request.
    Respond(Reply),
}

/// The handler's next step after `event`.
pub fn handle_event(event: HandlerEvent) -> (step: HandlerStep)
    ensures
        event matches HandlerEvent::FormRead(None) ==> (step matches HandlerStep::Respond(
            Reply::Empty { status },
        ) && status == 400),
        event matches HandlerEvent::FormRead(Some(id)) ==> (match parse_i32(id@) {
            Some(v) => step == HandlerStep::FetchAsset(v),
            None => (step matches HandlerStep::Respond(Reply::Text { status, body }) && status
                == 400 && body@ == "Invalid Number"@),
        }),
        event matches HandlerEvent::AssetFetched(None) ==> (step matches HandlerStep::Respond(
            Reply::Text { status, body },
        ) && status == 404 && body@ == "Asset not found"@),
        event matches HandlerEvent::AssetFetched(Some(p)) ==> (step matches HandlerStep::QueueRender {
            mesh,
            texture,
        } && mesh@ == p.0@ && texture@ == p.1@),
        event == HandlerEvent::RenderQueued(true) ==> step == HandlerStep::AwaitRender,
        event == HandlerEvent::RenderQueued(false) ==> (step matches HandlerStep::Respond(
            Reply::Text { status, body },
        ) && status == 500 && body@ == "Server Shutting Down"@),
        event matches HandlerEvent::RenderDone(Some(image)) ==> (step matches HandlerStep::Respond(
            Reply::Text { status, body },
        ) && status == 200 && body@ == image@),
        event matches HandlerEvent::RenderDone(None) ==> (step matches HandlerStep::Respond(
            Reply::Text { status, body },
        ) && status == 500 && body@ == "Render Failed"@),
{
    match event {
        HandlerEvent::FormRead(None) => HandlerStep::Respond(Reply::Empty { status: 400 }),
        HandlerEvent::FormRead(Some(id)) => match parse_item_id(id.as_str()) {
            Some(v) => HandlerStep::FetchAsset(v),
            None => HandlerStep::Respond(Reply::Text { status: 400, body: text_of("Invalid Number") }),
        },
        HandlerEvent::AssetFetched(None) => HandlerStep::Respond(
            Reply::Text { status: 404, body: text_of("Asset not found") },
        ),
        HandlerEvent::AssetFetched(Some((mesh, texture))) => HandlerStep::QueueRender { mesh, texture },
        HandlerEvent::RenderQueued(true) => HandlerStep::AwaitRender,
        HandlerEvent::RenderQueued(false) => HandlerStep::Respond(
            Reply::Text { status: 500, body: text_of("Server Shutting Down") },
        ),
        HandlerEvent::RenderDone(Some(image)) => HandlerStep::Respond(
            Reply::Text { status: 200, body: image },
        ),
        HandlerEvent::RenderDone(None) => HandlerStep::Respond(
            Reply::Text { status: 500, body: text_of("Render Failed") },
        ),
    }
}

/// An owned copy of `s`.
pub fn text_of(s: &str) -> (res: String)
    ensures
        res@ == s@,
{
    let mut res = String::new();
    push_str(&mut res, s);
    assert(res@ =~= s@);
    res
}

} // verus!
