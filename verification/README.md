# snake_card

Firmware logic of a business card that plays snake on an 8x8 LED matrix
driven by a MAX7219, on an ESP32-C3.

- `src/` is the verified library:
  - `snake`: the snake, its moves, growth and collisions;
  - `game`: the game rules, food placement from random draws, the frame
    shown on the matrix and its turn for the display;
  - `display`: the score font, LED addressing and the end-of-game blinking;
  - `max7219`: the register frames of the LED driver's serial protocol;
  - `controls`: console keys; `demo`: the matrix and button test;
  - `pixels`: bits of a frame.
- `app/` is the firmware around it: peripherals, tasks, timers, the
  hardware random number generator, and sending frames to the matrix.
- `tests/` runs the library on concrete values.
