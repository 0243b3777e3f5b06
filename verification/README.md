# kovi_plugins

The verified core of three chat-bot plugins for the kovi framework on a
Milky server:

- **emoji manager**: administrators register (`$emoji+=X`) and unregister
  (`$emoji-=X`) the characters that count as emoji;
- **message reaction**: in the groups where it is switched on
  (`$<group>+=message-reaction`), the bot reacts to each face and each
  registered emoji of a message;
- **image symmetry**: in the groups where it is switched on
  (`$<group>+=image-symmetry`), a message `对称 <direction>` with a picture
  is answered with the picture made symmetric (`左`, `右`, `上`, `下` keep one
  half of every frame; `前` and `后` play half of an animation forwards and
  back).

`src/` is the library, proved with Verus:

- `text`: white space, the command grammars;
- `registry`: the emoji registry and the per-group switches;
- `message`: message segments, the picture address, reactions, requests;
- `pixels`: RGBA pictures and the mirror transformation;
- `animation`: frames, delays and the symmetric animations;
- `decode`: telling formats apart and decoding pictures with the image crate;
- `encode`: writing a picture as PNG or GIF bytes with the image crate;
- `symmetry`: a request from downloaded bytes to the symmetric picture.

`app/` is the program around it: the framework's event handlers, the JSON
files, the download, and writing the encoded result to a file.
