# papier

A wallpaper for Wayland desktops. It puts a window on the background layer and shows a
picture in it, another one every day. The last picture is kept in the user's cache.

`src/` is the logic, verified with Verus. It decides what to do and returns it as plain
values; it does no I/O.

- `pixmap`: the pixels of the window, and the sizes of its buffer
- `header`: what a JPEG file says before its first scan
- `decoder`: which JPEG files the decoder can be given, by that
- `picture`: pictures, and reading them from JPEG files with the `image` crate
- `frame`: drawing a picture, stretched to the buffer
- `request`, `event`: what the client asks for, and what it is told
- `window`, `globals`, `client`: what the client knows, and what it does about events
- `fetch`: the search for a picture
- `cache`: where the last picture is kept
- `run`: the order in which the program does things
- `ledger`: that memory, pools and buffers are let go

`app/` is the program around it: it talks to the compositor, to the system and to the
network, and performs the requests.
