# raycasting

A small maze game drawn by ray casting, split in two:

- `src/` is the verified library: maze validation and lookups, Bresenham
  lines, rectangles and bitmap text, the 2D map, the minimap and the menu
  screens (each specified as the list of layers it paints over the
  framebuffer), textures and their table by wall symbol, the menus and the
  screen-to-screen flow of a session, gamepad button presses, the sprites of
  each level, and the choice of music files.
- `app/` is the program around it: the window, the keyboard, the mouse, the
  gamepad device, the audio output, file reading, and everything computed
  in floating point (the player's motion, ray casting, the 3D view and the
  sprites' movement).

`tests/` exercises the library on concrete values.
