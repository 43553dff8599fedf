# badge_scenes

Two full-screen scenes for the Disobey 2026 badge (ESP32-S3, 320×170 RGB565
display, 10 WS2812 LEDs), written in Verus:

- **Synthwave**: a sky gradient, a neon sun with the sky showing through its
  stripes, the "Disobey2026" title, a neon horizon and a scrolling
  perspective grid with a road; LED pulses stream outward from the middle of
  the strip in rainbow colours that run along it and cycle over time.
- **Lasers**: green laser beams fired across the screen from its edges,
  drawn additively with Bresenham's algorithm behind the "KADI" title, with
  faint sparks; LEDs flash green when beams fire.

`src/` is the verified library: every function states what it computes
(pixel by pixel for the renderers) and Verus proves it, together with
properties such as "the title is always on top", "a beam is always drawn to
its end", "a beam's two ends lie on different edges",
"drawing a laser only adds light", "the generator never yields
zero" and "no two LEDs share a hue". RGB565 packing goes through `embedded-graphics`.

`app/` is the firmware around it: board bring-up, the two cores' frame
handoff, the display and LED drivers of `disobey2026badge`.
