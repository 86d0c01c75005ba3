# robot_sim

A terminal simulator of a differential-drive robot on a small map.

- `src/` is the verified library: the world's screen geometry
  (`config`), the terminal commands that draw the map, the robot and the
  objects together with what they leave on screen (`draw`), the mapping of
  key events to driving intents (`input`) and the state of the simulation
  loop (`control`).
- `app/` is the program around it: terminal I/O through crossterm, and the
  floating-point kinematics and world-to-screen projection.
- `tests/` runs the library on concrete inputs.
