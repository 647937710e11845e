# cyberkent

The verified core of the CyberKent event app, written in Verus.

- `src/text.rs` — Unicode white space, trimming, splitting into words, and
  the character classes and case mappings of the standard library.
- `src/auth.rs` — the sign-up form's field checks (e-mail shape, full name,
  password strength), the in-memory account store, registration, password
  and Google login, and the laws that tie them together.
- `src/store.rs` — the CyberCoin wallet (buy, reward) and the formatting of
  amounts with thousands separators.
- `src/shop.rs` — the shop's search and tag filter.
- `src/map.rs` — the pixel canvas of the floor-plan renderer and the choice
  of the route to draw.
- `src/sdk.rs` — how answers of the device-security SDK are read.

`app/` holds the program around it: the Slint window and its callbacks, the
floating-point floor-plan renderer, and the Android-only FFI loader of the
security SDK.
